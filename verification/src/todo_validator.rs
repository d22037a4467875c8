//! The ledger format-drift validator: every existing ledger file must
//! deserialize and re-serialize to exactly its on-disk bytes, so that
//! hand edits cannot silently drift from the canonical form `update`
//! writes.

use vstd::prelude::*;

use crate::package_todo::{
    canon_spec, parse_package_todo, parse_todo_lines, serialize_package_todo, ser_todo_lines,
};
use crate::strutil;
use crate::strutil::{join_lines_spec, split_lines_spec};

verus! {

/// The file is in canonical form: it parses, and re-serializing the parse
/// result reproduces it byte for byte.
pub open spec fn spec_todo_format_ok(
    content: Seq<char>,
    pack_name: Seq<char>,
    packs_first_mode: bool,
) -> bool {
    match parse_todo_lines(split_lines_spec(content)) {
        Some(t) => content == join_lines_spec(
            ser_todo_lines(pack_name, canon_spec(t), packs_first_mode),
        ),
        None => false,
    }
}

/// The error message for a ledger that is out of canonical form.
pub open spec fn spec_drift_message(pack_name: Seq<char>, packs_first_mode: bool) -> Seq<char> {
    "Package todo file for "@ + pack_name
        + " is not in the expected format. Please run `"@ + (if packs_first_mode {
        "pks update"@
    } else {
        "bin/packwerk update-todo"@
    }) + "` to fix it."@
}

/// Validates the format of a single ledger file: it must parse, and
/// re-serializing the parsed ledger must reproduce the file exactly.
pub fn validate_package_todo_format(content: &str, pack_name: &str, packs_first_mode: bool) -> (r:
    Result<(), String>)
    ensures
        r is Ok <==> spec_todo_format_ok(content@, pack_name@, packs_first_mode),
        r matches Err(e) ==> e@ == (match parse_todo_lines(split_lines_spec(content@)) {
            Some(_) => spec_drift_message(pack_name@, packs_first_mode),
            None => "Failed to parse package todo file for "@ + pack_name@,
        }),
{
    let todo = match parse_package_todo(content) {
        Some(t) => t,
        None => {
            let mut msg = String::from_str("Failed to parse package todo file for ");
            msg.append(pack_name);
            return Err(msg);
        },
    };
    let expected = serialize_package_todo(pack_name, &todo, packs_first_mode);
    let cv = strutil::str_to_chars(content);
    let ev = strutil::str_to_chars(expected.as_str());
    if strutil::chars_eq(&cv, &ev) {
        Ok(())
    } else {
        let mut msg = String::from_str("Package todo file for ");
        msg.append(pack_name);
        msg.append(" is not in the expected format. Please run `");
        if packs_first_mode {
            msg.append("pks update");
        } else {
            msg.append("bin/packwerk update-todo");
        }
        msg.append("` to fix it.");
        proof {
            assert(msg@ =~= spec_drift_message(pack_name@, packs_first_mode));
        }
        Err(msg)
    }
}

/// The error messages of the ledger files that fail format validation, in
/// file order.
pub open spec fn spec_format_errors(
    files: Seq<(Seq<char>, Seq<char>)>,
    packs_first_mode: bool,
) -> Seq<Seq<char>>
    decreases files.len(),
{
    if files.len() == 0 {
        Seq::empty()
    } else {
        let rest = spec_format_errors(files.skip(1), packs_first_mode);
        if spec_todo_format_ok(files[0].1, files[0].0, packs_first_mode) {
            rest
        } else {
            seq![
                (match parse_todo_lines(split_lines_spec(files[0].1)) {
                    Some(_) => spec_drift_message(files[0].0, packs_first_mode),
                    None => "Failed to parse package todo file for "@ + files[0].0,
                }),
            ] + rest
        }
    }
}

/// Validator that checks ledger files for correct serialization format.
/// It is handed each pack's name and the raw bytes of its existing ledger
/// file by the persistence collaborator.
pub struct Checker;

impl Checker {
    /// Validates every supplied `(pack name, ledger file content)` pair;
    /// `None` when all files are in canonical form, else the error
    /// messages in file order.
    pub fn validate(&self, todo_files: &Vec<(String, String)>, packs_first_mode: bool) -> (r:
        Option<Vec<String>>)
        ensures
            (match r {
                Some(es) => es.deep_view() == spec_format_errors(
                    crate::dependencies::pairs_view(todo_files@),
                    packs_first_mode,
                ) && es.deep_view().len() > 0,
                None => spec_format_errors(
                    crate::dependencies::pairs_view(todo_files@),
                    packs_first_mode,
                ).len() == 0,
            }),
    {
        let ghost fv = crate::dependencies::pairs_view(todo_files@);
        let mut errors: Vec<String> = Vec::new();
        let mut i: usize = 0;
        proof {
            assert(fv.skip(0) =~= fv);
            assert(errors.deep_view() + spec_format_errors(fv, packs_first_mode)
                =~= spec_format_errors(fv, packs_first_mode));
        }
        while i < todo_files.len()
            invariant
                i <= fv.len(),
                fv == crate::dependencies::pairs_view(todo_files@),
                spec_format_errors(fv, packs_first_mode) == errors.deep_view()
                    + spec_format_errors(fv.skip(i as int), packs_first_mode),
            decreases fv.len() - i,
        {
            let ghost rest = fv.skip(i as int);
            proof {
                assert(rest[0] == fv[i as int]);
                assert(rest.skip(1) =~= fv.skip(i + 1));
            }
            match validate_package_todo_format(
                todo_files[i].1.as_str(),
                todo_files[i].0.as_str(),
                packs_first_mode,
            ) {
                Ok(_) => {},
                Err(e) => {
                    let ghost prev = errors.deep_view();
                    errors.push(e);
                    proof {
                        assert(errors.deep_view() =~= prev.push(
                            errors.deep_view()[errors.deep_view().len() - 1],
                        ));
                    }
                },
            }
            i = i + 1;
            proof {
                assert(errors.deep_view() + spec_format_errors(fv.skip(i as int), packs_first_mode)
                    =~= spec_format_errors(fv, packs_first_mode));
            }
        }
        proof {
            assert(spec_format_errors(fv.skip(i as int), packs_first_mode) =~= Seq::<
                Seq<char>,
            >::empty());
            assert(errors.deep_view() + Seq::<Seq<char>>::empty() =~= errors.deep_view());
        }
        if errors.len() > 0 {
            Some(errors)
        } else {
            None
        }
    }
}

} // verus!