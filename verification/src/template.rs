//! Template expansion for violation messages: formatters build a variable
//! list for a violation and substitute `{{placeholder}}` occurrences in a
//! template.

use vstd::prelude::*;

use crate::checker::{Violation, ViolationView};
use crate::checker_types::{spec_pretty_checker_name, CheckerConfiguration, CheckerType};
use crate::dependencies::pairs_view;
use crate::strutil;
use crate::strutil::{dec_str, replace_spec};

verus! {

/// `{{key}}`.
pub open spec fn placeholder_of(key: Seq<char>) -> Seq<char> {
    "{{"@ + key + "}}"@
}

/// The template with every variable substituted, first pair first.
pub open spec fn expand_spec(s: Seq<char>, vars: Seq<(Seq<char>, Seq<char>)>) -> Seq<char>
    decreases vars.len(),
{
    if vars.len() == 0 {
        s
    } else {
        expand_spec(replace_spec(s, placeholder_of(vars[0].0), vars[0].1), vars.skip(1))
    }
}

/// Expand a template by substituting all `{{placeholder}}` with values, in
/// list order.
pub fn expand(template: &str, variables: &Vec<(String, String)>) -> (r: String)
    ensures
        r@ == expand_spec(template@, pairs_view(variables@)),
{
    let ghost pv = pairs_view(variables@);
    let mut cur = String::from_str(template);
    let mut i: usize = 0;
    proof {
        assert(pv.skip(0) =~= pv);
    }
    while i < variables.len()
        invariant
            i <= pv.len(),
            pv == pairs_view(variables@),
            expand_spec(template@, pv) == expand_spec(cur@, pv.skip(i as int)),
        decreases pv.len() - i,
    {
        let ghost rest = pv.skip(i as int);
        proof {
            assert(rest[0] == pv[i as int]);
            assert(rest.skip(1) =~= pv.skip(i + 1));
        }
        let mut pat = String::from_str("{{");
        pat.append(variables[i].0.as_str());
        pat.append("}}");
        proof {
            assert(pat@ =~= placeholder_of(pv[i as int].0));
            reveal_strlit("{{");
            assert(pat@.len() > 0);
        }
        cur = strutil::str_replace(cur.as_str(), pat.as_str(), variables[i].1.as_str());
        i = i + 1;
    }
    proof {
        assert(pv.skip(i as int).len() == 0);
    }
    cur
}

/// `file:line:column` with a trailing newline.
pub open spec fn spec_reference_location(file: Seq<char>, line: nat, column: nat) -> Seq<char> {
    file + ":"@ + dec_str(line) + ":"@ + dec_str(column) + "\n"@
}

/// Format a reference location as `file:line:column` with a newline.
pub fn format_reference_location(file: &str, line: usize, column: usize) -> (r: String)
    ensures
        r@ == spec_reference_location(file@, line as nat, column as nat),
{
    let mut s = String::from_str(file);
    s.append(":");
    s.append(strutil::usize_to_string(line).as_str());
    s.append(":");
    s.append(strutil::usize_to_string(column).as_str());
    s.append("\n");
    proof {
        assert(s@ =~= spec_reference_location(file@, line as nat, column as nat));
    }
    s
}

/// The variable list of a violation: checker name, the identifier's names,
/// the manifest path, the plain reference location, and the two layer
/// names when present.
pub open spec fn spec_violation_vars(v: ViolationView) -> Seq<(Seq<char>, Seq<char>)> {
    seq![
        ("violation_name"@, spec_pretty_checker_name(v.identifier.violation_type)),
        ("constant_name"@, v.identifier.constant_name),
        ("defining_pack_name"@, v.identifier.defining_pack_name),
        ("referencing_pack_name"@, v.identifier.referencing_pack_name),
        ("referencing_pack_relative_yml"@, v.referencing_pack_relative_yml),
        (
            "reference_location"@,
            spec_reference_location(
                v.identifier.file,
                v.source_location.line as nat,
                v.source_location.column as nat,
            ),
        ),
    ] + (match v.defining_layer {
        Some(l) => seq![("defining_layer"@, l)],
        None => Seq::empty(),
    }) + (match v.referencing_layer {
        Some(l) => seq![("referencing_layer"@, l)],
        None => Seq::empty(),
    })
}

/// Build the template variables of a violation; the checker configuration
/// supplies the checker's display name.
pub fn build_violation_vars(v: &Violation, checker_config: &CheckerConfiguration) -> (r: Vec<
    (String, String),
>)
    requires
        checker_config.checker_type == v.identifier.violation_type,
    ensures
        pairs_view(r@) == spec_violation_vars(v@),
{
    let mut r: Vec<(String, String)> = Vec::new();
    r.push((String::from_str("violation_name"), checker_config.pretty_checker_name()));
    r.push((String::from_str("constant_name"), v.identifier.constant_name.clone()));
    r.push((String::from_str("defining_pack_name"), v.identifier.defining_pack_name.clone()));
    r.push(
        (String::from_str("referencing_pack_name"), v.identifier.referencing_pack_name.clone()),
    );
    r.push(
        (
            String::from_str("referencing_pack_relative_yml"),
            v.referencing_pack_relative_yml.clone(),
        ),
    );
    r.push(
        (
            String::from_str("reference_location"),
            format_reference_location(
                v.identifier.file.as_str(),
                v.source_location.line,
                v.source_location.column,
            ),
        ),
    );
    match &v.defining_layer {
        Some(l) => {
            r.push((String::from_str("defining_layer"), l.clone()));
        },
        None => {},
    }
    match &v.referencing_layer {
        Some(l) => {
            r.push((String::from_str("referencing_layer"), l.clone()));
        },
        None => {},
    }
    proof {
        assert(pairs_view(r@) =~= spec_violation_vars(v@));
    }
    r
}

/// The string without its trailing newlines.
pub open spec fn trim_trailing_newlines(s: Seq<char>) -> Seq<char>
    decreases s.len(),
{
    if s.len() > 0 && s.last() == '\n' {
        trim_trailing_newlines(s.drop_last())
    } else {
        s
    }
}

/// A reference location wrapped in ANSI color codes; a single trailing
/// newline is kept outside the colored span.
pub open spec fn spec_colorized_location(s: Seq<char>) -> Seq<char> {
    "\x1b[36m"@ + trim_trailing_newlines(s) + "\x1b[0m"@ + (if s.len() > 0 && s.last() == '\n' {
        "\n"@
    } else {
        Seq::empty()
    })
}

/// Wrap a reference location with ANSI color codes, keeping the trailing
/// newline outside the colored span.
pub fn colorize_reference_location(location: &str) -> (r: String)
    ensures
        r@ == spec_colorized_location(location@),
{
    let chars = strutil::str_to_chars(location);
    let mut e: usize = chars.len();
    proof {
        assert(location@.take(e as int) =~= location@);
    }
    while e > 0 && chars[e - 1] == '\n'
        invariant
            e <= chars@.len(),
            chars@ == location@,
            trim_trailing_newlines(location@) == trim_trailing_newlines(location@.take(e as int)),
        decreases e,
    {
        proof {
            assert(location@.take(e as int).last() == location@[e - 1]);
            assert(location@.take(e as int).drop_last() =~= location@.take(e - 1));
        }
        e = e - 1;
    }
    proof {
        let t = location@.take(e as int);
        if t.len() > 0 {
            assert(t.last() == location@[e - 1]);
        }
        assert(trim_trailing_newlines(t) == t);
    }
    let trimmed = strutil::chars_take(&chars, e);
    let mut s = String::from_str("\x1b[36m");
    s.append(strutil::chars_to_string(&trimmed).as_str());
    s.append("\x1b[0m");
    if chars.len() > 0 {
        if chars[chars.len() - 1] == '\n' {
            s.append("\n");
        }
    }
    proof {
        assert(s@ =~= spec_colorized_location(location@));
    }
    s
}

} // verus!