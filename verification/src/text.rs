//! Text output for check results: violation messages rendered from
//! templates, sorted by message, with stale-ledger hints and strict-mode
//! errors.

use vstd::prelude::*;

use crate::check_all::CheckAllResult;
use crate::checker::{IdView, Violation, ViolationIdentifier, ViolationView};
use crate::checker_types::{spec_checker_name, CheckerConfiguration, CheckerType};
use crate::configuration::{spec_template_for, Configuration};
use crate::strutil;
use crate::strutil::{contains_seq, dec_str, lex_lt, replace_spec};
use crate::template::{expand_spec, spec_violation_vars};

verus! {

/// Whether output carries ANSI color codes.
#[derive(Debug, Clone, Copy, PartialEq, Eq, Structural)]
pub enum ColorMode {
    Colored,
    Plain,
}

/// `file:line:column`, colored cyan in colored mode.
pub open spec fn spec_location(
    file: Seq<char>,
    line: nat,
    column: nat,
    color_mode: ColorMode,
) -> Seq<char> {
    let plain = file + ":"@ + dec_str(line) + ":"@ + dec_str(column);
    if color_mode == ColorMode::Colored {
        "\x1b[36m"@ + plain + "\x1b[0m"@
    } else {
        plain
    }
}

/// Format a `file:line:column` location, optionally with color.
pub fn format_location(file: &str, line: usize, column: usize, color_mode: ColorMode) -> (r:
    String)
    ensures
        r@ == spec_location(file@, line as nat, column as nat, color_mode),
{
    let mut s = String::new();
    match color_mode {
        ColorMode::Colored => {
            s.append("\x1b[36m");
        },
        ColorMode::Plain => {},
    }
    s.append(file);
    s.append(":");
    s.append(strutil::usize_to_string(line).as_str());
    s.append(":");
    s.append(strutil::usize_to_string(column).as_str());
    match color_mode {
        ColorMode::Colored => {
            s.append("\x1b[0m");
        },
        ColorMode::Plain => {},
    }
    proof {
        assert(s@ =~= spec_location(file@, line as nat, column as nat, color_mode));
    }
    s
}

/// A message with its location: when the message holds the
/// `{{reference_location}}` placeholder the location replaces it, followed
/// by a line break; otherwise the location is prepended on its own line.
pub open spec fn spec_formatted_message(
    message: Seq<char>,
    file: Seq<char>,
    line: nat,
    column: nat,
    color_mode: ColorMode,
) -> Seq<char> {
    let loc = spec_location(file, line, column, color_mode);
    if contains_seq(message, "{{reference_location}}"@) {
        replace_spec(message, "{{reference_location}}"@, loc + "\n"@)
    } else {
        loc + "\n"@ + message
    }
}

/// Format a violation message with its location.
pub fn format_violation_message(
    message: &str,
    file: &str,
    line: usize,
    column: usize,
    color_mode: ColorMode,
) -> (r: String)
    ensures
        r@ == spec_formatted_message(message@, file@, line as nat, column as nat, color_mode),
{
    let loc = format_location(file, line, column, color_mode);
    proof {
        reveal_strlit("{{reference_location}}");
    }
    if strutil::str_contains(message, "{{reference_location}}") {
        let mut with_break = loc;
        with_break.append("\n");
        strutil::str_replace(message, "{{reference_location}}", with_break.as_str())
    } else {
        let mut s = loc;
        s.append("\n");
        s.append(message);
        proof {
            assert(s@ =~= spec_formatted_message(
                message@,
                file@,
                line as nat,
                column as nat,
                color_mode,
            ));
        }
        s
    }
}

/// The built-in message template of a checker.
pub open spec fn spec_default_template(t: CheckerType) -> Seq<char> {
    match t {
        CheckerType::Dependency => "{{violation_name}} violation: `{{constant_name}}` belongs to `{{defining_pack_name}}`, but `{{referencing_pack_relative_yml}}` does not specify a dependency on `{{defining_pack_name}}`"@,
        CheckerType::Privacy => "{{violation_name}} violation: `{{constant_name}}` is private to `{{defining_pack_name}}`, but referenced from `{{referencing_pack_name}}`"@,
        CheckerType::FolderPrivacy => "{{violation_name}} violation: `{{constant_name}}` belongs to `{{defining_pack_name}}`, whose folder is private to its sibling packs, but is referenced from `{{referencing_pack_name}}`"@,
        CheckerType::Visibility => "{{violation_name}} violation: `{{constant_name}}` belongs to `{{defining_pack_name}}`, which does not permit visibility from `{{referencing_pack_name}}`"@,
        CheckerType::Layer => "{{violation_name}} violation: `{{constant_name}}` belongs to `{{defining_pack_name}}` in layer `{{defining_layer}}`, which may not be referenced from `{{referencing_pack_name}}` in layer `{{referencing_layer}}`"@,
    }
}

fn default_template(t: CheckerType) -> (r: String)
    ensures
        r@ == spec_default_template(t),
{
    match t {
        CheckerType::Dependency => String::from_str(
            "{{violation_name}} violation: `{{constant_name}}` belongs to `{{defining_pack_name}}`, but `{{referencing_pack_relative_yml}}` does not specify a dependency on `{{defining_pack_name}}`",
        ),
        CheckerType::Privacy => String::from_str(
            "{{violation_name}} violation: `{{constant_name}}` is private to `{{defining_pack_name}}`, but referenced from `{{referencing_pack_name}}`",
        ),
        CheckerType::FolderPrivacy => String::from_str(
            "{{violation_name}} violation: `{{constant_name}}` belongs to `{{defining_pack_name}}`, whose folder is private to its sibling packs, but is referenced from `{{referencing_pack_name}}`",
        ),
        CheckerType::Visibility => String::from_str(
            "{{violation_name}} violation: `{{constant_name}}` belongs to `{{defining_pack_name}}`, which does not permit visibility from `{{referencing_pack_name}}`",
        ),
        CheckerType::Layer => String::from_str(
            "{{violation_name}} violation: `{{constant_name}}` belongs to `{{defining_pack_name}}` in layer `{{defining_layer}}`, which may not be referenced from `{{referencing_pack_name}}` in layer `{{referencing_layer}}`",
        ),
    }
}

/// The rendered message of a violation: the configured or built-in
/// template of its checker, expanded with the violation's variables.
pub open spec fn spec_message_of(cc: Seq<CheckerConfiguration>, v: ViolationView) -> Seq<char> {
    let tmpl = match spec_template_for(cc, v.identifier.violation_type) {
        Some(t) => t,
        None => spec_default_template(v.identifier.violation_type),
    };
    expand_spec(tmpl, spec_violation_vars(v))
}

/// Render the message of one violation.
pub fn render_message(configuration: &Configuration, v: &Violation) -> (r: String)
    ensures
        r@ == spec_message_of(configuration.checker_configuration@, v@),
{
    let tmpl = match configuration.template_for(v.identifier.violation_type) {
        Some(t) => t,
        None => default_template(v.identifier.violation_type),
    };
    let cfg = CheckerConfiguration::new(v.identifier.violation_type);
    let vars = crate::template::build_violation_vars(v, &cfg);
    crate::template::expand(tmpl.as_str(), &vars)
}

/// The message shown for a strict-mode violation.
pub open spec fn spec_strict_message(id: IdView) -> Seq<char> {
    id.referencing_pack_name + " cannot have "@ + spec_checker_name(id.violation_type)
        + " violations on "@ + id.defining_pack_name
        + " because strict mode is enabled for "@ + spec_checker_name(id.violation_type)
        + " violations in the enforcing pack's package.yml file"@
}

/// Build the error line of one strict-mode violation.
pub fn build_strict_violation_message(identifier: &ViolationIdentifier) -> (r: String)
    ensures
        r@ == spec_strict_message(identifier@),
{
    let cfg = CheckerConfiguration::new(identifier.violation_type);
    let mut s = String::from_str(identifier.referencing_pack_name.as_str());
    s.append(" cannot have ");
    s.append(cfg.checker_name().as_str());
    s.append(" violations on ");
    s.append(identifier.defining_pack_name.as_str());
    s.append(" because strict mode is enabled for ");
    s.append(cfg.checker_name().as_str());
    s.append(" violations in the enforcing pack's package.yml file");
    proof {
        assert(s@ =~= spec_strict_message(identifier@));
    }
    s
}

/// A (message, formatted block) pair inserted before the first strictly
/// greater message, so sorting is stable.
pub open spec fn insert_pair(
    ps: Seq<(Seq<char>, Seq<char>)>,
    p: (Seq<char>, Seq<char>),
) -> Seq<(Seq<char>, Seq<char>)>
    decreases ps.len(),
{
    if ps.len() == 0 {
        seq![p]
    } else if lex_lt(p.0, ps[0].0) {
        seq![p] + ps
    } else {
        seq![ps[0]] + insert_pair(ps.skip(1), p)
    }
}

/// The pairs sorted by message, stably.
pub open spec fn sort_pairs(ps: Seq<(Seq<char>, Seq<char>)>) -> Seq<(Seq<char>, Seq<char>)>
    decreases ps.len(),
{
    if ps.len() == 0 {
        Seq::empty()
    } else {
        insert_pair(sort_pairs(ps.take(ps.len() - 1)), ps.last())
    }
}

/// Each violation's (message, formatted block) pair, in result order.
pub open spec fn spec_pairs_of(
    cc: Seq<CheckerConfiguration>,
    vs: Seq<Violation>,
    color_mode: ColorMode,
) -> Seq<(Seq<char>, Seq<char>)> {
    Seq::new(
        vs.len(),
        |k: int|
            (
                spec_message_of(cc, vs[k]@),
                spec_formatted_message(
                    spec_message_of(cc, vs[k]@),
                    vs[k]@.identifier.file,
                    vs[k]@.source_location.line as nat,
                    vs[k]@.source_location.column as nat,
                    color_mode,
                ),
            ),
    )
}

/// The formatted blocks concatenated, each followed by a blank line.
pub open spec fn spec_blocks(ps: Seq<(Seq<char>, Seq<char>)>) -> Seq<char>
    decreases ps.len(),
{
    if ps.len() == 0 {
        Seq::empty()
    } else {
        ps[0].1 + "\n\n"@ + spec_blocks(ps.skip(1))
    }
}

/// The strict-mode error lines concatenated.
pub open spec fn spec_strict_lines(vs: Seq<Violation>) -> Seq<char>
    decreases vs.len(),
{
    if vs.len() == 0 {
        Seq::empty()
    } else {
        spec_strict_message(vs[0]@.identifier) + "\n"@ + spec_strict_lines(vs.skip(1))
    }
}

/// The whole text report of a check result.
pub open spec fn spec_text_output(
    cc: Seq<CheckerConfiguration>,
    res: CheckAllResult,
    color_mode: ColorMode,
) -> Seq<char> {
    if res.reportable_violations@.len() == 0 && res.stale_violations@.len() == 0
        && res.strict_mode_violations@.len() == 0 {
        "No violations detected!\n"@
    } else {
        (if res.reportable_violations@.len() > 0 {
            dec_str(res.reportable_violations@.len()) + " violation(s) detected:\n"@ + spec_blocks(
                sort_pairs(spec_pairs_of(cc, res.reportable_violations@, color_mode)),
            )
        } else {
            Seq::empty()
        }) + (if res.stale_violations@.len() > 0 {
            "There were stale violations found, please run `pks update`\n"@
        } else {
            Seq::empty()
        }) + spec_strict_lines(res.strict_mode_violations@)
    }
}

/// Render the whole text report: reportable violations sorted by message,
/// a stale-ledger hint when ledger entries went stale, and one error line
/// per strict-mode violation.
pub fn write_text(
    result: &CheckAllResult,
    configuration: &Configuration,
    color_mode: ColorMode,
) -> (r: String)
    ensures
        r@ == spec_text_output(configuration.checker_configuration@, *result, color_mode),
{
    let ghost cc = configuration.checker_configuration@;
    if !result.has_violations() {
        return String::from_str("No violations detected!\n");
    }
    let mut out = String::new();
    if result.reportable_violations.len() > 0 {
        let ghost pairs_g = spec_pairs_of(cc, result.reportable_violations@, color_mode);
        // build and insertion-sort the (message, formatted block) pairs
        let mut sorted: Vec<(String, String)> = Vec::new();
        let mut k: usize = 0;
        proof {
            assert(crate::dependencies::pairs_view(sorted@) =~= sort_pairs(pairs_g.take(0)));
            assert(pairs_g.take(0) =~= Seq::<(Seq<char>, Seq<char>)>::empty());
        }
        while k < result.reportable_violations.len()
            invariant
                k <= result.reportable_violations@.len(),
                cc == configuration.checker_configuration@,
                pairs_g == spec_pairs_of(cc, result.reportable_violations@, color_mode),
                crate::dependencies::pairs_view(sorted@) == sort_pairs(pairs_g.take(k as int)),
            decreases result.reportable_violations@.len() - k,
        {
            let v = &result.reportable_violations[k];
            let message = render_message(configuration, v);
            let formatted = format_violation_message(
                message.as_str(),
                v.identifier.file.as_str(),
                v.source_location.line,
                v.source_location.column,
                color_mode,
            );
            let ghost p = pairs_g[k as int];
            proof {
                assert(p == (message@, formatted@));
            }
            // insert into sorted position
            let ghost pre = crate::dependencies::pairs_view(sorted@);
            let mut j: usize = 0;
            let mut placed = false;
            proof {
                assert(pre.take(0) =~= Seq::<(Seq<char>, Seq<char>)>::empty());
                assert(pre.skip(0) =~= pre);
                assert(pre.take(0) + insert_pair(pre.skip(0), p) =~= insert_pair(pre, p));
            }
            while j < sorted.len() && !placed
                invariant
                    j <= sorted@.len(),
                    message@ == p.0,
                    formatted@ == p.1,
                    !placed ==> crate::dependencies::pairs_view(sorted@) == pre,
                    !placed ==> insert_pair(pre, p) == pre.take(j as int) + insert_pair(
                        pre.skip(j as int),
                        p,
                    ),
                    placed ==> crate::dependencies::pairs_view(sorted@) == insert_pair(pre, p),
                decreases
                        (if placed {
                            0int
                        } else {
                            1int
                        }),
                        sorted@.len() - j,
            {
                let ghost tail = pre.skip(j as int);
                proof {
                    assert(tail[0] == pre[j as int]);
                    assert(tail.skip(1) =~= pre.skip(j + 1));
                }
                let mv = strutil::str_to_chars(message.as_str());
                let ov = strutil::str_to_chars(sorted[j].0.as_str());
                if strutil::chars_lt(&mv, &ov) {
                    proof {
                        assert(insert_pair(tail, p) == seq![p] + tail);
                    }
                    sorted.insert(j, (message.clone(), formatted.clone()));
                    proof {
                        assert(crate::dependencies::pairs_view(sorted@) =~= pre.take(j as int) + (
                        seq![p] + tail));
                    }
                    placed = true;
                } else {
                    proof {
                        assert(insert_pair(tail, p) == seq![tail[0]] + insert_pair(
                            tail.skip(1),
                            p,
                        ));
                    }
                    j = j + 1;
                    proof {
                        assert(pre.take(j as int) =~= pre.take(j - 1).push(pre[j - 1]));
                        assert(pre.take(j as int) + insert_pair(pre.skip(j as int), p) =~= pre.take(
                            j - 1,
                        ) + insert_pair(pre.skip(j - 1), p));
                    }
                }
            }
            if !placed {
                proof {
                    assert(pre.skip(j as int) =~= Seq::<(Seq<char>, Seq<char>)>::empty());
                    assert(insert_pair(pre.skip(j as int), p) == seq![p]);
                }
                sorted.push((message, formatted));
                proof {
                    assert(crate::dependencies::pairs_view(sorted@) =~= pre.take(j as int) + seq![
                        p,
                    ]);
                    assert(pre.take(j as int) =~= pre);
                }
            }
            k = k + 1;
            proof {
                assert(pairs_g.take(k as int).take(k - 1) =~= pairs_g.take(k - 1));
                assert(pairs_g.take(k as int).last() == pairs_g[k - 1]);
                assert(sort_pairs(pairs_g.take(k as int)) == insert_pair(
                    sort_pairs(pairs_g.take(k - 1)),
                    pairs_g[k - 1],
                ));
            }
        }
        proof {
            assert(pairs_g.take(k as int) =~= pairs_g);
        }
        out.append(strutil::usize_to_string(result.reportable_violations.len()).as_str());
        out.append(" violation(s) detected:\n");
        let ghost sorted_g = crate::dependencies::pairs_view(sorted@);
        let ghost header = out@;
        let mut m: usize = 0;
        proof {
            assert(sorted_g.skip(0) =~= sorted_g);
        }
        while m < sorted.len()
            invariant
                m <= sorted@.len(),
                sorted_g == crate::dependencies::pairs_view(sorted@),
                header + spec_blocks(sorted_g) == out@ + spec_blocks(sorted_g.skip(m as int)),
            decreases sorted@.len() - m,
        {
            let ghost rest = sorted_g.skip(m as int);
            proof {
                assert(rest[0] == sorted_g[m as int]);
                assert(rest.skip(1) =~= sorted_g.skip(m + 1));
            }
            out.append(sorted[m].1.as_str());
            out.append("\n\n");
            proof {
                assert(out@ + spec_blocks(sorted_g.skip(m + 1)) =~= header + spec_blocks(
                    sorted_g,
                ));
            }
            m = m + 1;
        }
        proof {
            assert(spec_blocks(sorted_g.skip(m as int)) =~= Seq::<char>::empty());
            assert(out@ + Seq::<char>::empty() =~= out@);
        }
    }
    if result.stale_violations.len() > 0 {
        out.append("There were stale violations found, please run `pks update`\n");
    }
    let ghost before_strict = out@;
    let mut m: usize = 0;
    proof {
        assert(result.strict_mode_violations@.skip(0) =~= result.strict_mode_violations@);
    }
    while m < result.strict_mode_violations.len()
        invariant
            m <= result.strict_mode_violations@.len(),
            before_strict + spec_strict_lines(result.strict_mode_violations@) == out@
                + spec_strict_lines(result.strict_mode_violations@.skip(m as int)),
        decreases result.strict_mode_violations@.len() - m,
    {
        let ghost rest = result.strict_mode_violations@.skip(m as int);
        proof {
            assert(rest[0] == result.strict_mode_violations@[m as int]);
            assert(rest.skip(1) =~= result.strict_mode_violations@.skip(m + 1));
        }
        let msg = build_strict_violation_message(&result.strict_mode_violations[m].identifier);
        out.append(msg.as_str());
        out.append("\n");
        m = m + 1;
        proof {
            assert(out@ + spec_strict_lines(result.strict_mode_violations@.skip(m as int)) =~=
                before_strict + spec_strict_lines(result.strict_mode_violations@));
        }
    }
    proof {
        assert(spec_strict_lines(result.strict_mode_violations@.skip(m as int)) =~= Seq::<
            char,
        >::empty());
        assert(out@ + Seq::<char>::empty() =~= out@);
        assert(out@ =~= spec_text_output(cc, *result, color_mode));
    }
    out
}

} // verus!