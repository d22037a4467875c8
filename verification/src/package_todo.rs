//! The recorded ledger of previously accepted violations: its model, its
//! canonical serialized form, the parser, and the proof that parsing inverts
//! serialization.
//!
//! A ledger file belongs to one referencing pack and records, keyed by the
//! pack it violates, the violation type and the `(constant, file)` pairs
//! that were accepted. The canonical text groups records by defining pack,
//! then violation type, sorted by pack name, violation type, constant name
//! and file.

use vstd::prelude::*;

use crate::checker_types::{spec_checker_name, CheckerType};
use crate::strutil;
use crate::strutil::{contains_seq, join_lines_spec, lex_lt, split_lines_spec};

verus! {

/// One accepted violation in the ledger.
#[derive(Debug)]
pub struct TodoRecord {
    pub defining_pack_name: String,
    pub violation_type: CheckerType,
    pub constant_name: String,
    pub file: String,
}

/// The ghost image of a record.
pub struct TodoRecordView {
    pub defining_pack_name: Seq<char>,
    pub violation_type: CheckerType,
    pub constant_name: Seq<char>,
    pub file: Seq<char>,
}

impl View for TodoRecord {
    type V = TodoRecordView;

    open spec fn view(&self) -> TodoRecordView {
        TodoRecordView {
            defining_pack_name: self.defining_pack_name@,
            violation_type: self.violation_type,
            constant_name: self.constant_name@,
            file: self.file@,
        }
    }
}

impl Clone for TodoRecord {
    fn clone(&self) -> (res: Self)
        ensures
            res@ == self@,
    {
        TodoRecord {
            defining_pack_name: self.defining_pack_name.clone(),
            violation_type: self.violation_type,
            constant_name: self.constant_name.clone(),
            file: self.file.clone(),
        }
    }
}

/// The recorded ledger of one referencing pack.
#[derive(Debug)]
pub struct PackageTodo {
    pub records: Vec<TodoRecord>,
}

impl View for PackageTodo {
    type V = Seq<TodoRecordView>;

    open spec fn view(&self) -> Seq<TodoRecordView> {
        Seq::new(self.records@.len(), |i: int| self.records@[i]@)
    }
}

impl Clone for PackageTodo {
    fn clone(&self) -> (res: Self)
        ensures
            res@ == self@,
    {
        let mut records: Vec<TodoRecord> = Vec::new();
        let mut i: usize = 0;
        while i < self.records.len()
            invariant
                i <= self.records@.len(),
                records@.len() == i,
                forall|j: int| 0 <= j < i ==> records@[j]@ == self@[j],
            decreases self.records@.len() - i,
        {
            records.push(self.records[i].clone());
            i = i + 1;
        }
        let res = PackageTodo { records };
        proof {
            assert(res@ =~= self@);
        }
        res
    }
}

impl Default for PackageTodo {
    /// An empty ledger.
    fn default() -> (r: Self)
        ensures
            r@.len() == 0,
    {
        let r = PackageTodo { records: Vec::new() };
        proof {
            assert(r@ =~= Seq::<TodoRecordView>::empty());
        }
        r
    }
}

/// A name that can head a block in the ledger file: non-empty, on one line,
/// and not mistakable for a comment or an indented line.
pub open spec fn wf_name(s: Seq<char>) -> bool {
    s.len() > 0 && !s.contains('\n') && s[0] != ' ' && s[0] != '#'
}

/// A constant name as it may appear in an entry line: one line, and free of
/// the `": "` separator.
pub open spec fn wf_constant(s: Seq<char>) -> bool {
    !s.contains('\n') && !contains_seq(s, ": "@)
}

/// A file path as it may appear in an entry line.
pub open spec fn wf_file(s: Seq<char>) -> bool {
    !s.contains('\n')
}

/// A record whose strings can be serialized and parsed back.
pub open spec fn wf_record(r: TodoRecordView) -> bool {
    wf_name(r.defining_pack_name) && wf_constant(r.constant_name) && wf_file(r.file)
}

/// All records of a ledger are well-formed.
pub open spec fn wf_records(rs: Seq<TodoRecordView>) -> bool {
    forall|i: int| 0 <= i < rs.len() ==> wf_record(#[trigger] rs[i])
}

/// The fixed rank of a violation type in the canonical order: alphabetical
/// by checker name.
pub open spec fn type_rank(t: CheckerType) -> int {
    match t {
        CheckerType::Dependency => 0,
        CheckerType::FolderPrivacy => 1,
        CheckerType::Layer => 2,
        CheckerType::Privacy => 3,
        CheckerType::Visibility => 4,
    }
}

/// Strict canonical order on records: by defining pack, then violation
/// type, then constant name, then file.
pub open spec fn record_lt(a: TodoRecordView, b: TodoRecordView) -> bool {
    if a.defining_pack_name != b.defining_pack_name {
        lex_lt(a.defining_pack_name, b.defining_pack_name)
    } else if a.violation_type != b.violation_type {
        type_rank(a.violation_type) < type_rank(b.violation_type)
    } else if a.constant_name != b.constant_name {
        lex_lt(a.constant_name, b.constant_name)
    } else {
        lex_lt(a.file, b.file)
    }
}

/// Two records carry the same data.
pub open spec fn record_eq(a: TodoRecordView, b: TodoRecordView) -> bool {
    a.defining_pack_name == b.defining_pack_name && a.violation_type == b.violation_type
        && a.constant_name == b.constant_name && a.file == b.file
}

/// The ledger is in canonical order: strictly sorted, hence duplicate-free.
pub open spec fn canonical(rs: Seq<TodoRecordView>) -> bool {
    forall|i: int| 0 <= i < rs.len() - 1 ==> record_lt(#[trigger] rs[i], rs[i + 1])
}

/// The serialized line heading the block of one defining pack.
pub open spec fn pack_header_line(name: Seq<char>) -> Seq<char> {
    name + ":"@
}

/// The serialized line naming a violation type inside a pack block.
pub open spec fn type_line(t: CheckerType) -> Seq<char> {
    "  "@ + spec_checker_name(t) + ":"@
}

/// The serialized line of one accepted `(constant, file)` pair.
pub open spec fn entry_line(r: TodoRecordView) -> Seq<char> {
    "  - "@ + r.constant_name + ": "@ + r.file
}

/// The body lines of a ledger: one entry line per record, with a pack
/// header wherever the defining pack changes and a type line wherever the
/// violation type changes.
pub open spec fn ser_records(
    rs: Seq<TodoRecordView>,
    prev_pack: Option<Seq<char>>,
    prev_type: Option<CheckerType>,
) -> Seq<Seq<char>>
    decreases rs.len(),
{
    if rs.len() == 0 {
        Seq::empty()
    } else {
        let r = rs[0];
        let headers: Seq<Seq<char>> = if prev_pack != Some(r.defining_pack_name) {
            seq![pack_header_line(r.defining_pack_name), type_line(r.violation_type)]
        } else if prev_type != Some(r.violation_type) {
            seq![type_line(r.violation_type)]
        } else {
            Seq::empty()
        };
        headers + seq![entry_line(r)] + ser_records(
            rs.skip(1),
            Some(r.defining_pack_name),
            Some(r.violation_type),
        )
    }
}

/// The index of the first `": "` in `s`, or `-1` if there is none.
pub open spec fn find_sep(s: Seq<char>) -> int
    decreases s.len(),
{
    if s.len() < 2 {
        -1
    } else if s[0] == ':' && s[1] == ' ' {
        0
    } else {
        let r = find_sep(s.skip(1));
        if r < 0 {
            -1
        } else {
            r + 1
        }
    }
}

/// The checker type a violation-type line names, if any.
pub open spec fn parse_type_name(name: Seq<char>) -> Option<CheckerType> {
    if name == "dependency"@ {
        Some(CheckerType::Dependency)
    } else if name == "folder_privacy"@ {
        Some(CheckerType::FolderPrivacy)
    } else if name == "layer"@ {
        Some(CheckerType::Layer)
    } else if name == "privacy"@ {
        Some(CheckerType::Privacy)
    } else if name == "visibility"@ {
        Some(CheckerType::Visibility)
    } else {
        None
    }
}

/// A line carrying one `(constant, file)` entry.
pub open spec fn is_entry_line(l: Seq<char>) -> bool {
    l.len() >= 4 && l.subrange(0, 4) == "  - "@
}

/// A line that is indented but not an entry: a violation-type line.
pub open spec fn is_indented_line(l: Seq<char>) -> bool {
    l.len() >= 2 && l.subrange(0, 2) == "  "@ && !is_entry_line(l)
}

/// The records of the ledger body, read line by line while tracking the
/// current defining pack and violation type; `None` on any malformed line.
pub open spec fn parse_records(
    lines: Seq<Seq<char>>,
    cur_pack: Option<Seq<char>>,
    cur_type: Option<CheckerType>,
) -> Option<Seq<TodoRecordView>>
    decreases lines.len(),
{
    if lines.len() == 0 {
        Some(Seq::empty())
    } else {
        let l = lines[0];
        if is_entry_line(l) {
            if cur_pack is Some && cur_type is Some {
                let b = l.skip(4);
                let k = find_sep(b);
                if k < 0 {
                    None
                } else {
                    let rec = TodoRecordView {
                        defining_pack_name: cur_pack->0,
                        violation_type: cur_type->0,
                        constant_name: b.take(k),
                        file: b.skip(k + 2),
                    };
                    match parse_records(lines.skip(1), cur_pack, cur_type) {
                        Some(rest) => Some(seq![rec] + rest),
                        None => None,
                    }
                }
            } else {
                None
            }
        } else if is_indented_line(l) {
            if l.len() >= 3 && l[l.len() - 1] == ':' && cur_pack is Some {
                match parse_type_name(l.subrange(2, l.len() - 1)) {
                    Some(t) => parse_records(lines.skip(1), cur_pack, Some(t)),
                    None => None,
                }
            } else {
                None
            }
        } else {
            if l.len() >= 2 && l[0] != ' ' && l[0] != '#' && l[l.len() - 1] == ':' {
                parse_records(lines.skip(1), Some(l.take(l.len() - 1)), None)
            } else {
                None
            }
        }
    }
}

/// The whole ledger file: leading comment lines, a `---` marker, then the
/// body.
pub open spec fn parse_todo_lines(lines: Seq<Seq<char>>) -> Option<Seq<TodoRecordView>>
    decreases lines.len(),
{
    if lines.len() == 0 {
        None
    } else if lines[0].len() > 0 && lines[0][0] == '#' {
        parse_todo_lines(lines.skip(1))
    } else if lines[0] == "---"@ {
        parse_records(lines.skip(1), None, None)
    } else {
        None
    }
}

/// `r` inserted into an already canonical sequence, keeping it canonical;
/// inserting an already present record changes nothing.
pub open spec fn insert_canon(rs: Seq<TodoRecordView>, r: TodoRecordView) -> Seq<TodoRecordView>
    decreases rs.len(),
{
    if rs.len() == 0 {
        seq![r]
    } else if record_eq(r, rs[0]) {
        rs
    } else if record_lt(r, rs[0]) {
        seq![r] + rs
    } else {
        seq![rs[0]] + insert_canon(rs.skip(1), r)
    }
}

/// The canonical (sorted, duplicate-free) version of `rs`.
pub open spec fn canon_spec(rs: Seq<TodoRecordView>) -> Seq<TodoRecordView>
    decreases rs.len(),
{
    if rs.len() == 0 {
        Seq::empty()
    } else {
        insert_canon(canon_spec(rs.take(rs.len() - 1)), rs.last())
    }
}

/// Record order trichotomy: distinct records are strictly ordered one way.
pub proof fn lemma_record_total(a: TodoRecordView, b: TodoRecordView)
    ensures
        record_eq(a, b) || record_lt(a, b) || record_lt(b, a),
        !(record_eq(a, b) && record_lt(a, b)),
        !(record_eq(a, b) && record_lt(b, a)),
        !(record_lt(a, b) && record_lt(b, a)),
{
    strutil::lemma_lex_total(a.defining_pack_name, b.defining_pack_name);
    strutil::lemma_lex_total(a.constant_name, b.constant_name);
    strutil::lemma_lex_total(a.file, b.file);
    strutil::lemma_lex_asym(a.defining_pack_name, b.defining_pack_name);
    strutil::lemma_lex_asym(a.constant_name, b.constant_name);
    strutil::lemma_lex_asym(a.file, b.file);
}

/// Record order transitivity.
pub proof fn lemma_record_trans(a: TodoRecordView, b: TodoRecordView, c: TodoRecordView)
    requires
        record_lt(a, b),
        record_lt(b, c),
    ensures
        record_lt(a, c),
{
    strutil::lemma_lex_asym(a.defining_pack_name, b.defining_pack_name);
    strutil::lemma_lex_asym(b.defining_pack_name, c.defining_pack_name);
    strutil::lemma_lex_asym(a.constant_name, b.constant_name);
    strutil::lemma_lex_asym(b.constant_name, c.constant_name);
    strutil::lemma_lex_asym(a.file, b.file);
    strutil::lemma_lex_asym(b.file, c.file);
    if a.defining_pack_name != b.defining_pack_name && b.defining_pack_name
        != c.defining_pack_name {
        strutil::lemma_lex_trans(a.defining_pack_name, b.defining_pack_name, c.defining_pack_name);
    }
    if a.defining_pack_name == b.defining_pack_name && b.defining_pack_name == c.defining_pack_name
        && a.violation_type == b.violation_type && b.violation_type == c.violation_type {
        if a.constant_name != b.constant_name && b.constant_name != c.constant_name {
            strutil::lemma_lex_trans(a.constant_name, b.constant_name, c.constant_name);
        }
        if a.constant_name == b.constant_name && b.constant_name == c.constant_name {
            strutil::lemma_lex_trans(a.file, b.file, c.file);
        }
    }
}

/// The views of a vector of records.
pub open spec fn records_view(v: Seq<TodoRecord>) -> Seq<TodoRecordView> {
    Seq::new(v.len(), |i: int| v[i]@)
}

fn type_rank_exec(t: CheckerType) -> (r: u8)
    ensures
        r as int == type_rank(t),
{
    match t {
        CheckerType::Dependency => 0,
        CheckerType::FolderPrivacy => 1,
        CheckerType::Layer => 2,
        CheckerType::Privacy => 3,
        CheckerType::Visibility => 4,
    }
}

fn record_eq_exec(a: &TodoRecord, b: &TodoRecord) -> (res: bool)
    ensures
        res == record_eq(a@, b@),
{
    let ap = strutil::str_to_chars(a.defining_pack_name.as_str());
    let bp = strutil::str_to_chars(b.defining_pack_name.as_str());
    if !strutil::chars_eq(&ap, &bp) {
        return false;
    }
    if type_rank_exec(a.violation_type) != type_rank_exec(b.violation_type) {
        return false;
    }
    let ac = strutil::str_to_chars(a.constant_name.as_str());
    let bc = strutil::str_to_chars(b.constant_name.as_str());
    if !strutil::chars_eq(&ac, &bc) {
        return false;
    }
    let af = strutil::str_to_chars(a.file.as_str());
    let bf = strutil::str_to_chars(b.file.as_str());
    strutil::chars_eq(&af, &bf)
}

fn record_lt_exec(a: &TodoRecord, b: &TodoRecord) -> (res: bool)
    ensures
        res == record_lt(a@, b@),
{
    let ap = strutil::str_to_chars(a.defining_pack_name.as_str());
    let bp = strutil::str_to_chars(b.defining_pack_name.as_str());
    if !strutil::chars_eq(&ap, &bp) {
        return strutil::chars_lt(&ap, &bp);
    }
    let ra = type_rank_exec(a.violation_type);
    let rb = type_rank_exec(b.violation_type);
    if ra != rb {
        return ra < rb;
    }
    let ac = strutil::str_to_chars(a.constant_name.as_str());
    let bc = strutil::str_to_chars(b.constant_name.as_str());
    if !strutil::chars_eq(&ac, &bc) {
        return strutil::chars_lt(&ac, &bc);
    }
    let af = strutil::str_to_chars(a.file.as_str());
    let bf = strutil::str_to_chars(b.file.as_str());
    strutil::chars_lt(&af, &bf)
}

/// The records of `todo`, in canonical order with duplicates removed.
pub fn canonicalize(todo: &PackageTodo) -> (r: PackageTodo)
    ensures
        r@ == canon_spec(todo@),
{
    let mut out: Vec<TodoRecord> = Vec::new();
    let mut i: usize = 0;
    proof {
        assert(records_view(out@) =~= canon_spec(todo@.take(0)));
        assert(todo@.take(0) =~= Seq::<TodoRecordView>::empty());
    }
    while i < todo.records.len()
        invariant
            i <= todo.records@.len(),
            records_view(out@) == canon_spec(todo@.take(i as int)),
        decreases todo.records@.len() - i,
    {
        let r = todo.records[i].clone();
        let ghost pre = records_view(out@);
        let mut k: usize = 0;
        let mut done = false;
        proof {
            assert(pre.take(0) =~= Seq::<TodoRecordView>::empty());
            assert(pre.skip(0) =~= pre);
            assert(pre.take(0) + insert_canon(pre.skip(0), r@) =~= insert_canon(pre, r@));
        }
        while k < out.len() && !done
            invariant
                k <= out@.len(),
                i < todo.records@.len(),
                r@ == todo.records@[i as int]@,
                !done ==> insert_canon(pre, r@) == pre.take(k as int) + insert_canon(
                    pre.skip(k as int),
                    r@,
                ),
                !done ==> forall|j: int|
                    0 <= j < k ==> !record_eq(r@, #[trigger] pre[j]) && !record_lt(r@, pre[j]),
                done ==> records_view(out@) == insert_canon(pre, r@),
                !done ==> records_view(out@) == pre,
            decreases
                    (if done {
                        0int
                    } else {
                        1int
                    }),
                    out@.len() - k,
        {
            let ghost tail = pre.skip(k as int);
            proof {
                assert(tail[0] == pre[k as int]);
                assert(tail.skip(1) =~= pre.skip(k + 1));
            }
            if record_eq_exec(&r, &out[k]) {
                proof {
                    assert(pre[k as int] == records_view(out@)[k as int]);
                    assert(insert_canon(tail, r@) == tail);
                    assert(pre.take(k as int) + tail =~= pre);
                }
                done = true;
            } else if record_lt_exec(&r, &out[k]) {
                proof {
                    assert(insert_canon(tail, r@) == seq![r@] + tail);
                }
                out.insert(k, r.clone());
                proof {
                    assert(records_view(out@) =~= pre.take(k as int) + (seq![r@] + tail));
                }
                done = true;
            } else {
                k = k + 1;
                proof {
                    assert(pre.take(k as int) =~= pre.take(k - 1).push(pre[k - 1]));
                    assert(insert_canon(tail, r@) == seq![tail[0]] + insert_canon(
                        tail.skip(1),
                        r@,
                    ));
                    assert(pre.take(k as int) + insert_canon(pre.skip(k as int), r@) =~= pre.take(
                        k - 1,
                    ) + insert_canon(pre.skip(k - 1), r@));
                }
            }
        }
        if !done {
            proof {
                assert(pre.skip(k as int) =~= Seq::<TodoRecordView>::empty());
                assert(insert_canon(pre.skip(k as int), r@) == seq![r@]);
            }
            out.push(r);
            proof {
                assert(records_view(out@) =~= pre.take(k as int) + seq![r@]);
                assert(pre.take(k as int) =~= pre);
            }
        }
        i = i + 1;
        proof {
            assert(todo@.take(i as int).take(i - 1) =~= todo@.take(i - 1));
            assert(todo@.take(i as int).last() == todo@[i - 1]);
            assert(canon_spec(todo@.take(i as int)) == insert_canon(
                canon_spec(todo@.take(i - 1)),
                todo@[i - 1],
            ));
        }
    }
    proof {
        assert(todo@.take(i as int) =~= todo@);
    }
    let r = PackageTodo { records: out };
    proof {
        assert(r@ =~= records_view(r.records@));
    }
    r
}

fn find_sep_exec(b: &Vec<char>, j: usize) -> (r: Option<usize>)
    requires
        j <= b.len(),
    ensures
        match r {
            Some(k) => j <= k && k as int - j == find_sep(b@.skip(j as int)) && k + 2 <= b.len(),
            None => find_sep(b@.skip(j as int)) < 0,
        },
    decreases b.len() - j,
{
    let ghost s = b@.skip(j as int);
    if b.len() - j < 2 {
        proof {
            assert(s.len() < 2);
        }
        return None;
    }
    proof {
        assert(s[0] == b@[j as int]);
        assert(s[1] == b@[j + 1]);
        assert(s.skip(1) =~= b@.skip(j + 1));
    }
    if b[j] == ':' && b[j + 1] == ' ' {
        Some(j)
    } else {
        match find_sep_exec(b, j + 1) {
            Some(k) => Some(k),
            None => None,
        }
    }
}

fn parse_type_name_exec(name: &Vec<char>) -> (r: Option<CheckerType>)
    ensures
        r == parse_type_name(name@),
{
    let d = strutil::str_to_chars("dependency");
    if strutil::chars_eq(name, &d) {
        return Some(CheckerType::Dependency);
    }
    let f = strutil::str_to_chars("folder_privacy");
    if strutil::chars_eq(name, &f) {
        return Some(CheckerType::FolderPrivacy);
    }
    let l = strutil::str_to_chars("layer");
    if strutil::chars_eq(name, &l) {
        return Some(CheckerType::Layer);
    }
    let p = strutil::str_to_chars("privacy");
    if strutil::chars_eq(name, &p) {
        return Some(CheckerType::Privacy);
    }
    let v = strutil::str_to_chars("visibility");
    if strutil::chars_eq(name, &v) {
        return Some(CheckerType::Visibility);
    }
    None
}

/// The comment lines heading a serialized ledger; the suggested command
/// depends on whether the project is in packs-first mode.
pub open spec fn header_comment_lines(pack: Seq<char>, packs_first_mode: bool) -> Seq<Seq<char>> {
    seq![
        "# This file contains a list of dependencies that are not part of the long term plan for the"@,
        "# '"@ + pack + "' package."@,
        "# We should generally work to reduce this list over time."@,
        "#"@,
        "# You can regenerate this file using the following command:"@,
        "#"@,
        if packs_first_mode {
            "# pks update"@
        } else {
            "# bin/packwerk update-todo"@
        },
    ]
}

/// All lines of a serialized ledger: header comments, the `---` marker, and
/// the body.
pub open spec fn ser_todo_lines(
    pack: Seq<char>,
    rs: Seq<TodoRecordView>,
    packs_first_mode: bool,
) -> Seq<Seq<char>> {
    header_comment_lines(pack, packs_first_mode) + seq!["---"@] + ser_records(rs, None, None)
}

/// The serializer state after the first `i` records: the pack and type of
/// the record last written.
pub open spec fn prev_pack_state(rv: Seq<TodoRecordView>, i: int) -> Option<Seq<char>> {
    if i == 0 {
        None
    } else {
        Some(rv[i - 1].defining_pack_name)
    }
}

/// See `prev_pack_state`.
pub open spec fn prev_type_state(rv: Seq<TodoRecordView>, i: int) -> Option<CheckerType> {
    if i == 0 {
        None
    } else {
        Some(rv[i - 1].violation_type)
    }
}

fn mk_pack_header_line(name: &str) -> (r: String)
    ensures
        r@ == pack_header_line(name@),
{
    let mut s = String::from_str(name);
    s.append(":");
    s
}

fn mk_type_line(t: CheckerType) -> (r: String)
    ensures
        r@ == type_line(t),
{
    let cfg = crate::checker_types::CheckerConfiguration::new(t);
    let mut s = String::from_str("  ");
    s.append(cfg.checker_name().as_str());
    s.append(":");
    proof {
        assert(s@ =~= type_line(t));
    }
    s
}

fn mk_entry_line(rec: &TodoRecord) -> (r: String)
    ensures
        r@ == entry_line(rec@),
{
    let mut s = String::from_str("  - ");
    s.append(rec.constant_name.as_str());
    s.append(": ");
    s.append(rec.file.as_str());
    proof {
        assert(s@ =~= entry_line(rec@));
    }
    s
}

fn emit_records(records: &Vec<TodoRecord>) -> (lines: Vec<String>)
    ensures
        lines.deep_view() == ser_records(records_view(records@), None, None),
{
    let ghost rv = records_view(records@);
    let mut lines: Vec<String> = Vec::new();
    let mut i: usize = 0;
    proof {
        assert(rv.skip(0) =~= rv);
        assert(lines.deep_view() + ser_records(rv, None, None) =~= ser_records(rv, None, None));
    }
    while i < records.len()
        invariant
            i <= records@.len(),
            rv == records_view(records@),
            ser_records(rv, None, None) == lines.deep_view() + ser_records(
                rv.skip(i as int),
                prev_pack_state(rv, i as int),
                prev_type_state(rv, i as int),
            ),
        decreases records@.len() - i,
    {
        let ghost tail = rv.skip(i as int);
        let ghost sp = prev_pack_state(rv, i as int);
        let ghost st = prev_type_state(rv, i as int);
        proof {
            assert(tail[0] == rv[i as int]);
            assert(tail.skip(1) =~= rv.skip(i + 1));
        }
        let r = &records[i];
        let mut new_pack = false;
        if i == 0 {
            new_pack = true;
        } else {
            let prev = strutil::str_to_chars(records[i - 1].defining_pack_name.as_str());
            let cur = strutil::str_to_chars(r.defining_pack_name.as_str());
            if !strutil::chars_eq(&prev, &cur) {
                new_pack = true;
            }
        }
        proof {
            assert(new_pack == (sp != Some(rv[i as int].defining_pack_name)));
        }
        if new_pack {
            lines.push(mk_pack_header_line(r.defining_pack_name.as_str()));
            lines.push(mk_type_line(r.violation_type));
        } else {
            let mut new_type = false;
            if i == 0 {
                new_type = true;
            } else {
                let ra = type_rank_exec(records[i - 1].violation_type);
                let rb = type_rank_exec(r.violation_type);
                if ra != rb {
                    new_type = true;
                }
            }
            proof {
                assert(new_type == (st != Some(rv[i as int].violation_type)));
            }
            if new_type {
                lines.push(mk_type_line(r.violation_type));
            }
        }
        lines.push(mk_entry_line(r));
        i = i + 1;
        proof {
            assert(ser_records(rv, None, None) =~= lines.deep_view() + ser_records(
                rv.skip(i as int),
                prev_pack_state(rv, i as int),
                prev_type_state(rv, i as int),
            ));
        }
    }
    proof {
        assert(rv.skip(i as int) =~= Seq::<TodoRecordView>::empty());
        assert(lines.deep_view() + Seq::<Seq<char>>::empty() =~= lines.deep_view());
    }
    lines
}

/// The canonical serialized ledger for `pack_name`: header comments, the
/// `---` marker, and the records of `todo` in canonical order, one line per
/// accepted `(constant, file)` pair.
pub fn serialize_package_todo(pack_name: &str, todo: &PackageTodo, packs_first_mode: bool) -> (r:
    String)
    ensures
        r@ == join_lines_spec(
            ser_todo_lines(pack_name@, canon_spec(todo@), packs_first_mode),
        ),
{
    let canon = canonicalize(todo);
    let mut lines: Vec<String> = Vec::new();
    lines.push(
        String::from_str(
            "# This file contains a list of dependencies that are not part of the long term plan for the",
        ),
    );
    let mut l2 = String::from_str("# '");
    l2.append(pack_name);
    l2.append("' package.");
    lines.push(l2);
    lines.push(String::from_str("# We should generally work to reduce this list over time."));
    lines.push(String::from_str("#"));
    lines.push(
        String::from_str("# You can regenerate this file using the following command:"),
    );
    lines.push(String::from_str("#"));
    if packs_first_mode {
        lines.push(String::from_str("# pks update"));
    } else {
        lines.push(String::from_str("# bin/packwerk update-todo"));
    }
    lines.push(String::from_str("---"));
    let mut body = emit_records(&canon.records);
    lines.append(&mut body);
    proof {
        assert(canon@ =~= records_view(canon.records@));
        assert(lines.deep_view() =~= ser_todo_lines(
            pack_name@,
            canon_spec(todo@),
            packs_first_mode,
        ));
    }
    strutil::join_lines(&lines)
}

/// The result of continuing a body parse from state `(cp, ct)` over the
/// remaining lines, combined with records already gathered.
pub open spec fn combine_parse(
    out: Seq<TodoRecordView>,
    rest: Option<Seq<TodoRecordView>>,
) -> Option<Seq<TodoRecordView>> {
    match rest {
        Some(t) => Some(out + t),
        None => None,
    }
}

fn parse_body(lines: &Vec<String>, start: usize) -> (r: Option<PackageTodo>)
    requires
        start <= lines.len(),
    ensures
        match r {
            Some(t) => parse_records(lines.deep_view().skip(start as int), None, None) == Some(
                t@,
            ),
            None => parse_records(lines.deep_view().skip(start as int), None, None) is None,
        },
{
    let ghost body = lines.deep_view().skip(start as int);
    let mut out: Vec<TodoRecord> = Vec::new();
    let mut cur_pack: Option<String> = None;
    let mut cur_type: Option<CheckerType> = None;
    let mut j: usize = start;
    proof {
        assert(body.skip(0) =~= body);
        assert(records_view(out@) =~= Seq::<TodoRecordView>::empty());
        assert(combine_parse(records_view(out@), parse_records(body, None, None))
            =~~= parse_records(body, None, None));
    }
    while j < lines.len()
        invariant
            start <= j <= lines@.len(),
            body == lines.deep_view().skip(start as int),
            parse_records(body, None, None) == combine_parse(
                records_view(out@),
                parse_records(
                    lines.deep_view().skip(j as int),
                    crate::pack::opt_view(cur_pack),
                    cur_type,
                ),
            ),
        decreases lines@.len() - j,
    {
        let ghost rest = lines.deep_view().skip(j as int);
        proof {
            assert(rest[0] == lines.deep_view()[j as int]);
            assert(rest.skip(1) =~= lines.deep_view().skip(j + 1));
        }
        let c = strutil::str_to_chars(lines[j].as_str());
        let entry_prefix = strutil::str_to_chars("  - ");
        let indent_prefix = strutil::str_to_chars("  ");
        proof {
            reveal_strlit("  - ");
            reveal_strlit("  ");
        }
        if strutil::chars_starts_with(&c, &entry_prefix) {
            proof {
                assert(is_entry_line(rest[0]));
            }
            let (p, t) = match (&cur_pack, &cur_type) {
                (Some(p), Some(t)) => (p.clone(), *t),
                _ => {
                    return None;
                },
            };
            let b = strutil::chars_skip(&c, 4);
            let k = match find_sep_exec(&b, 0) {
                Some(k) => k,
                None => {
                    proof {
                        assert(b@.skip(0) =~= b@);
                    }
                    return None;
                },
            };
            proof {
                assert(b@.skip(0) =~= b@);
            }
            let constant = strutil::chars_take(&b, k);
            let file = strutil::chars_skip(&b, k + 2);
            let rec = TodoRecord {
                defining_pack_name: p,
                violation_type: t,
                constant_name: strutil::chars_to_string(&constant),
                file: strutil::chars_to_string(&file),
            };
            let ghost old_out = records_view(out@);
            out.push(rec);
            j = j + 1;
            proof {
                let spec_rec = TodoRecordView {
                    defining_pack_name: crate::pack::opt_view(cur_pack)->0,
                    violation_type: cur_type->0,
                    constant_name: rest[0].skip(4).take(find_sep(rest[0].skip(4))),
                    file: rest[0].skip(4).skip(find_sep(rest[0].skip(4)) + 2),
                };
                assert(records_view(out@) =~= old_out.push(spec_rec));
                assert(forall|t2: Option<Seq<TodoRecordView>>|
                    combine_parse(old_out, combine_parse(seq![spec_rec], t2)) =~~= combine_parse(
                        old_out.push(spec_rec),
                        t2,
                    ));
                assert(parse_records(body, None, None) =~~= combine_parse(
                    records_view(out@),
                    parse_records(
                        lines.deep_view().skip(j as int),
                        crate::pack::opt_view(cur_pack),
                        cur_type,
                    ),
                ));
            }
        } else if strutil::chars_starts_with(&c, &indent_prefix) {
            proof {
                assert(!is_entry_line(rest[0]));
                assert(is_indented_line(rest[0]));
            }
            if c.len() < 3 {
                return None;
            }
            if c[c.len() - 1] != ':' {
                return None;
            }
            if cur_pack.is_none() {
                return None;
            }
            let inner = strutil::chars_take(&c, c.len() - 1);
            let name = strutil::chars_skip(&inner, 2);
            proof {
                assert(name@ =~= rest[0].subrange(2, rest[0].len() - 1));
            }
            match parse_type_name_exec(&name) {
                Some(t) => {
                    cur_type = Some(t);
                },
                None => {
                    return None;
                },
            }
            j = j + 1;
        } else {
            proof {
                assert(!is_entry_line(rest[0]));
                assert(!is_indented_line(rest[0]));
            }
            if c.len() < 2 {
                return None;
            }
            if c[0] == ' ' || c[0] == '#' {
                return None;
            }
            if c[c.len() - 1] != ':' {
                return None;
            }
            let name = strutil::chars_take(&c, c.len() - 1);
            cur_pack = Some(strutil::chars_to_string(&name));
            cur_type = None;
            j = j + 1;
        }
    }
    proof {
        assert(lines.deep_view().skip(j as int) =~= Seq::<Seq<char>>::empty());
        assert(combine_parse(records_view(out@), Some(Seq::<TodoRecordView>::empty()))
            =~~= Some(records_view(out@)));
    }
    let r = PackageTodo { records: out };
    proof {
        assert(r@ =~= records_view(r.records@));
    }
    Some(r)
}

/// Reads a ledger file back into its model: leading `#` comments, a `---`
/// marker, then pack blocks, violation-type lines and entry lines. `None`
/// on any line that fits no shape.
pub fn parse_package_todo(content: &str) -> (r: Option<PackageTodo>)
    ensures
        match r {
            Some(t) => parse_todo_lines(split_lines_spec(content@)) == Some(t@),
            None => parse_todo_lines(split_lines_spec(content@)) is None,
        },
{
    let lines = strutil::split_lines(content);
    let ghost lv = lines.deep_view();
    let mut i: usize = 0;
    proof {
        assert(lv.skip(0) =~= lv);
    }
    while i < lines.len()
        invariant
            i <= lines@.len(),
            lv == lines.deep_view(),
            lv == split_lines_spec(content@),
            parse_todo_lines(lv) == parse_todo_lines(lv.skip(i as int)),
        decreases lines@.len() - i,
    {
        let ghost rest = lv.skip(i as int);
        proof {
            assert(rest[0] == lv[i as int]);
            assert(rest.skip(1) =~= lv.skip(i + 1));
        }
        let c = strutil::str_to_chars(lines[i].as_str());
        if c.len() > 0 && c[0] == '#' {
            i = i + 1;
        } else {
            let marker = strutil::str_to_chars("---");
            proof {
                assert(c@ == rest[0]);
            }
            if strutil::chars_eq(&c, &marker) {
                proof {
                    reveal_strlit("---");
                    assert(rest[0] == "---"@);
                    assert(rest[0].len() == 3);
                    assert(rest[0][0] == '-');
                    assert(parse_todo_lines(rest) == parse_records(
                        lv.skip(i + 1),
                        None,
                        None,
                    ));
                }
                let res = parse_body(&lines, i + 1);
                proof {
                    assert(lv == split_lines_spec(content@));
                    assert(parse_todo_lines(split_lines_spec(content@)) == parse_records(
                        lv.skip(i + 1),
                        None,
                        None,
                    ));
                    assert(res matches Some(t) ==> parse_records(lv.skip(i + 1), None, None)
                        == Some(t@));
                    assert(res is None ==> parse_records(lv.skip(i + 1), None, None) is None);
                }
                return res;
            }
            proof {
                assert(c@ != "---"@);
                assert(parse_todo_lines(rest) is None);
                assert(lv == split_lines_spec(content@));
                assert(parse_todo_lines(split_lines_spec(content@)) is None);
            }
            return None;
        }
    }
    proof {
        assert(lv.skip(i as int).len() == 0);
    }
    None
}

/// Positions before `find_sep` hold no separator, and the position found
/// does.
pub proof fn lemma_find_sep_first(s: Seq<char>)
    ensures
        find_sep(s) >= 0 ==> 0 <= find_sep(s) && find_sep(s) + 2 <= s.len() && s[find_sep(s)]
            == ':' && s[find_sep(s) + 1] == ' ',
        forall|i: int|
            0 <= i < find_sep(s) ==> !((#[trigger] s[i]) == ':' && s[i + 1] == ' '),
        find_sep(s) < 0 ==> forall|i: int|
            0 <= i && i + 2 <= s.len() ==> !((#[trigger] s[i]) == ':' && s[i + 1] == ' '),
    decreases s.len(),
{
    if s.len() < 2 {
    } else if s[0] == ':' && s[1] == ' ' {
    } else {
        lemma_find_sep_first(s.skip(1));
        let s1 = s.skip(1);
        assert forall|i: int| 0 <= i < find_sep(s) implies !((#[trigger] s[i]) == ':' && s[i + 1]
            == ' ') by {
            if i > 0 {
                assert(s1[i - 1] == s[i]);
                assert(s1[i] == s[i + 1]);
            }
        }
        if find_sep(s) < 0 {
            assert forall|i: int| 0 <= i && i + 2 <= s.len() implies !((#[trigger] s[i]) == ':'
                && s[i + 1] == ' ') by {
                if i > 0 {
                    assert(s1[i - 1] == s[i]);
                    assert(s1[i] == s[i + 1]);
                }
            }
        }
    }
}

/// In `c + ": " + f` with a separator-free `c`, the first separator is the
/// one between `c` and `f`.
pub proof fn lemma_find_sep_concat(c: Seq<char>, f: Seq<char>)
    requires
        !contains_seq(c, ": "@),
    ensures
        find_sep(c + ": "@ + f) == c.len(),
    decreases c.len(),
{
    reveal_strlit(": ");
    let s = c + ": "@ + f;
    if c.len() == 0 {
        assert(s[0] == ':' && s[1] == ' ');
    } else {
        assert(s[0] == c[0]);
        if s.len() >= 2 && s[0] == ':' && s[1] == ' ' {
            if c.len() == 1 {
                assert(s[1] == ':');
            } else {
                assert(s[1] == c[1]);
                assert(c.subrange(0, 2) =~= ": "@);
                assert(strutil::occurs_at(c, ": "@, 0));
                assert(contains_seq(c, ": "@));
            }
            assert(false);
        }
        assert(!contains_seq(c.skip(1), ": "@)) by {
            if contains_seq(c.skip(1), ": "@) {
                let i = choose|i: int| strutil::occurs_at(c.skip(1), ": "@, i);
                assert(c.subrange(i + 1, i + 3) =~= c.skip(1).subrange(i, i + 2));
                assert(strutil::occurs_at(c, ": "@, i + 1));
            }
        }
        lemma_find_sep_concat(c.skip(1), f);
        assert(s.skip(1) =~= c.skip(1) + ": "@ + f);
    }
}

/// How a serialized entry line reads back.
pub proof fn lemma_entry_line_shape(r: TodoRecordView)
    requires
        wf_record(r),
    ensures
        is_entry_line(entry_line(r)),
        entry_line(r).skip(4) == r.constant_name + ": "@ + r.file,
        find_sep(entry_line(r).skip(4)) == r.constant_name.len(),
        entry_line(r).skip(4).take(r.constant_name.len() as int) == r.constant_name,
        entry_line(r).skip(4).skip(r.constant_name.len() + 2int) == r.file,
        !entry_line(r).contains('\n'),
{
    reveal_strlit("  - ");
    reveal_strlit(": ");
    let l = entry_line(r);
    assert(l.subrange(0, 4) =~= "  - "@);
    assert(l.skip(4) =~= r.constant_name + ": "@ + r.file);
    lemma_find_sep_concat(r.constant_name, r.file);
    assert(l.skip(4).take(r.constant_name.len() as int) =~= r.constant_name);
    assert(l.skip(4).skip(r.constant_name.len() + 2int) =~= r.file);
    strutil::lemma_concat_contains("  - "@ + r.constant_name + ": "@, r.file, '\n');
    strutil::lemma_concat_contains("  - "@ + r.constant_name, ": "@, '\n');
    strutil::lemma_concat_contains("  - "@, r.constant_name, '\n');
    assert(!("  - "@).contains('\n')) by {
        if ("  - "@).contains('\n') {
            let i = choose|i: int| 0 <= i < 4 && ("  - "@)[i] == '\n';
        }
    }
    assert(!(": "@).contains('\n')) by {
        if (": "@).contains('\n') {
            let i = choose|i: int| 0 <= i < 2 && (": "@)[i] == '\n';
        }
    }
    assert(l =~= "  - "@ + r.constant_name + ": "@ + r.file);
}

/// How a serialized violation-type line reads back.
pub proof fn lemma_type_line_shape(t: CheckerType)
    ensures
        !is_entry_line(type_line(t)),
        is_indented_line(type_line(t)),
        type_line(t).len() >= 3,
        type_line(t)[type_line(t).len() - 1] == ':',
        type_line(t).subrange(2, type_line(t).len() - 1) == spec_checker_name(t),
        parse_type_name(spec_checker_name(t)) == Some(t),
        !type_line(t).contains('\n'),
{
    reveal_strlit("  ");
    reveal_strlit("  - ");
    reveal_strlit(":");
    reveal_strlit("dependency");
    reveal_strlit("folder_privacy");
    reveal_strlit("layer");
    reveal_strlit("privacy");
    reveal_strlit("visibility");
    let l = type_line(t);
    let name = spec_checker_name(t);
    assert(name.len() >= 5 && name[0] != '-' && name[0] != '\n' && !name.contains('\n')) by {
        match t {
            CheckerType::Dependency => {
                assert(forall|i: int| 0 <= i < name.len() ==> name[i] != '\n');
            },
            CheckerType::FolderPrivacy => {
                assert(forall|i: int| 0 <= i < name.len() ==> name[i] != '\n');
            },
            CheckerType::Layer => {
                assert(forall|i: int| 0 <= i < name.len() ==> name[i] != '\n');
            },
            CheckerType::Privacy => {
                assert(forall|i: int| 0 <= i < name.len() ==> name[i] != '\n');
            },
            CheckerType::Visibility => {
                assert(forall|i: int| 0 <= i < name.len() ==> name[i] != '\n');
            },
        }
    }
    assert(l =~= "  "@ + name + ":"@);
    assert(l[2] == name[0]);
    assert(l.subrange(0, 4) != "  - "@) by {
        assert(("  - "@)[2] == '-');
        if l.len() >= 4 && l.subrange(0, 4) == "  - "@ {
            assert(l.subrange(0, 4)[2] == l[2]);
        }
    }
    assert(l.subrange(0, 2) =~= "  "@);
    assert(l[l.len() - 1] == ':');
    assert(l.subrange(2, l.len() - 1) =~= name);
    assert(!l.contains('\n')) by {
        if l.contains('\n') {
            let i = choose|i: int| 0 <= i < l.len() && l[i] == '\n';
            if 2 <= i < l.len() - 1 {
                assert(name[i - 2] == '\n');
            }
        }
    }
    match t {
        CheckerType::Dependency => {
            assert(parse_type_name(name) == Some(t));
        },
        CheckerType::FolderPrivacy => {
            assert(name != "dependency"@) by {
                assert(name.len() != ("dependency"@).len());
            }
            assert(parse_type_name(name) == Some(t));
        },
        CheckerType::Layer => {
            assert(name != "dependency"@) by {
                assert(name.len() != ("dependency"@).len());
            }
            assert(name != "folder_privacy"@) by {
                assert(name.len() != ("folder_privacy"@).len());
            }
            assert(parse_type_name(name) == Some(t));
        },
        CheckerType::Privacy => {
            assert(name != "dependency"@) by {
                assert(name.len() != ("dependency"@).len());
            }
            assert(name != "folder_privacy"@) by {
                assert(name.len() != ("folder_privacy"@).len());
            }
            assert(name != "layer"@) by {
                assert(name.len() != ("layer"@).len());
            }
            assert(parse_type_name(name) == Some(t));
        },
        CheckerType::Visibility => {
            assert(name != "dependency"@) by {
                assert(name[0] != ("dependency"@)[0]);
            }
            assert(name != "folder_privacy"@) by {
                assert(name[0] != ("folder_privacy"@)[0]);
            }
            assert(name != "layer"@) by {
                assert(name[0] != ("layer"@)[0]);
            }
            assert(name != "privacy"@) by {
                assert(name.len() != ("privacy"@).len());
            }
            assert(parse_type_name(name) == Some(t));
        },
    }
}

/// How a serialized pack-header line reads back.
pub proof fn lemma_pack_line_shape(name: Seq<char>)
    requires
        wf_name(name),
    ensures
        !is_entry_line(pack_header_line(name)),
        !is_indented_line(pack_header_line(name)),
        pack_header_line(name).len() >= 2,
        pack_header_line(name)[0] != ' ',
        pack_header_line(name)[0] != '#',
        pack_header_line(name)[pack_header_line(name).len() - 1] == ':',
        pack_header_line(name).take(pack_header_line(name).len() - 1) == name,
        !pack_header_line(name).contains('\n'),
{
    reveal_strlit("  ");
    reveal_strlit("  - ");
    reveal_strlit(":");
    let l = pack_header_line(name);
    assert(l =~= name + ":"@);
    assert(l[0] == name[0]);
    assert(!is_entry_line(l)) by {
        if l.len() >= 4 && l.subrange(0, 4) == "  - "@ {
            assert(l.subrange(0, 4)[0] == l[0]);
            assert(("  - "@)[0] == ' ');
        }
    }
    assert(!is_indented_line(l)) by {
        if l.len() >= 2 && l.subrange(0, 2) == "  "@ {
            assert(l.subrange(0, 2)[0] == l[0]);
            assert(("  "@)[0] == ' ');
        }
    }
    assert(l[l.len() - 1] == ':');
    assert(l.take(l.len() - 1) =~= name);
    assert(!l.contains('\n')) by {
        if l.contains('\n') {
            let i = choose|i: int| 0 <= i < l.len() && l[i] == '\n';
            if i < name.len() {
                assert(name.contains('\n'));
            }
        }
    }
}

/// Parsing the serialized body returns exactly the records serialized,
/// whatever the serializer state.
pub proof fn lemma_parse_inverts_ser(
    rs: Seq<TodoRecordView>,
    prev_pack: Option<Seq<char>>,
    prev_type: Option<CheckerType>,
)
    requires
        wf_records(rs),
    ensures
        parse_records(ser_records(rs, prev_pack, prev_type), prev_pack, prev_type) == Some(rs),
    decreases rs.len(),
{
    if rs.len() == 0 {
    } else {
        let r = rs[0];
        assert(wf_record(r));
        lemma_entry_line_shape(r);
        lemma_type_line_shape(r.violation_type);
        lemma_pack_line_shape(r.defining_pack_name);
        let p = r.defining_pack_name;
        let t = r.violation_type;
        let rest_ser = ser_records(rs.skip(1), Some(p), Some(t));
        assert(wf_records(rs.skip(1))) by {
            assert(forall|i: int| 0 <= i < rs.skip(1).len() ==> rs.skip(1)[i] == rs[i + 1]);
        }
        lemma_parse_inverts_ser(rs.skip(1), Some(p), Some(t));
        // one entry line followed by the rest, parsed in state (p, t)
        let lines_e = seq![entry_line(r)] + rest_ser;
        assert(lines_e[0] == entry_line(r));
        assert(lines_e.skip(1) =~= rest_ser);
        assert(parse_records(lines_e, Some(p), Some(t)) == Some(seq![r] + rs.skip(1))) by {
            let b = entry_line(r).skip(4);
            let k = find_sep(b);
            assert(k == r.constant_name.len());
            let rec = TodoRecordView {
                defining_pack_name: p,
                violation_type: t,
                constant_name: b.take(k),
                file: b.skip(k + 2),
            };
            assert(rec.constant_name == r.constant_name);
            assert(rec.file == r.file);
            assert(rec == r);
        }
        assert(seq![r] + rs.skip(1) =~= rs);
        if prev_pack != Some(p) {
            let lines = ser_records(rs, prev_pack, prev_type);
            assert(lines =~= seq![pack_header_line(p), type_line(t)] + lines_e);
            assert(lines[0] == pack_header_line(p));
            assert(lines.skip(1) =~= seq![type_line(t)] + lines_e);
            assert(pack_header_line(p).take(pack_header_line(p).len() - 1) == p);
            assert(parse_records(lines, prev_pack, prev_type) == parse_records(
                lines.skip(1),
                Some(p),
                None,
            ));
            assert(lines.skip(1)[0] == type_line(t));
            assert(lines.skip(1).skip(1) =~= lines_e);
            assert(parse_records(lines.skip(1), Some(p), None) == parse_records(
                lines_e,
                Some(p),
                Some(t),
            ));
        } else if prev_type != Some(t) {
            let lines = ser_records(rs, prev_pack, prev_type);
            assert(lines =~= seq![type_line(t)] + lines_e);
            assert(lines[0] == type_line(t));
            assert(lines.skip(1) =~= lines_e);
            assert(parse_records(lines, prev_pack, prev_type) == parse_records(
                lines_e,
                Some(p),
                Some(t),
            ));
        } else {
            let lines = ser_records(rs, prev_pack, prev_type);
            assert(lines =~= lines_e);
        }
    }
}

/// Parsing a whole serialized ledger file returns exactly the records.
pub proof fn lemma_parse_todo_file(pack: Seq<char>, rs: Seq<TodoRecordView>, packs_first_mode: bool)
    requires
        wf_records(rs),
    ensures
        parse_todo_lines(ser_todo_lines(pack, rs, packs_first_mode)) == Some(rs),
{
    reveal_strlit("# This file contains a list of dependencies that are not part of the long term plan for the");
    reveal_strlit("# '");
    reveal_strlit("# We should generally work to reduce this list over time.");
    reveal_strlit("#");
    reveal_strlit("# You can regenerate this file using the following command:");
    reveal_strlit("# pks update");
    reveal_strlit("# bin/packwerk update-todo");
    reveal_strlit("---");
    let hs = header_comment_lines(pack, packs_first_mode);
    let body = ser_records(rs, None, None);
    let lines = ser_todo_lines(pack, rs, packs_first_mode);
    assert(("# '"@ + pack + "' package."@)[0] == '#');
    assert(forall|i: int| 0 <= i < hs.len() ==> (#[trigger] hs[i]).len() > 0 && hs[i][0] == '#');
    lemma_parse_inverts_ser(rs, None, None);
    let l7 = seq!["---"@] + body;
    assert(parse_todo_lines(l7) == parse_records(body, None, None)) by {
        assert(l7[0] == "---"@);
        assert(("---"@)[0] == '-');
        assert(l7.skip(1) =~= body);
    }
    assert(lines =~= hs + l7);
    let l1 = lines.skip(1);
    let l2 = lines.skip(2);
    let l3 = lines.skip(3);
    let l4 = lines.skip(4);
    let l5 = lines.skip(5);
    let l6 = lines.skip(6);
    assert(lines[0] == hs[0] && l1[0] == hs[1] && l2[0] == hs[2] && l3[0] == hs[3] && l4[0]
        == hs[4] && l5[0] == hs[5] && l6[0] == hs[6]);
    assert(l1.skip(1) =~= l2);
    assert(l2.skip(1) =~= l3);
    assert(l3.skip(1) =~= l4);
    assert(l4.skip(1) =~= l5);
    assert(l5.skip(1) =~= l6);
    assert(l6.skip(1) =~= l7);
    assert(lines.skip(1) =~= l1);
    assert(parse_todo_lines(lines) == parse_todo_lines(l1));
    assert(parse_todo_lines(l1) == parse_todo_lines(l2));
    assert(parse_todo_lines(l2) == parse_todo_lines(l3));
    assert(parse_todo_lines(l3) == parse_todo_lines(l4));
    assert(parse_todo_lines(l4) == parse_todo_lines(l5));
    assert(parse_todo_lines(l5) == parse_todo_lines(l6));
    assert(parse_todo_lines(l6) == parse_todo_lines(l7));
}

/// `x` occurs in `rs`.
pub open spec fn has_record(rs: Seq<TodoRecordView>, x: TodoRecordView) -> bool {
    exists|i: int| 0 <= i < rs.len() && rs[i] == x
}

/// In a canonical sequence every earlier record is strictly smaller.
pub proof fn lemma_canonical_pair(rs: Seq<TodoRecordView>, i: int, j: int)
    requires
        canonical(rs),
        0 <= i < j < rs.len(),
    ensures
        record_lt(rs[i], rs[j]),
    decreases j - i,
{
    if j == i + 1 {
    } else {
        lemma_canonical_pair(rs, i, j - 1);
        lemma_record_trans(rs[i], rs[j - 1], rs[j]);
    }
}

/// Inserting into a canonical sequence keeps it canonical and adds exactly
/// the inserted record to its members.
pub proof fn lemma_insert_canon_props(rs: Seq<TodoRecordView>, r: TodoRecordView)
    requires
        canonical(rs),
    ensures
        canonical(insert_canon(rs, r)),
        forall|x: TodoRecordView|
            #![trigger has_record(insert_canon(rs, r), x)]
            has_record(insert_canon(rs, r), x) <==> (has_record(rs, x) || x == r),
        insert_canon(rs, r).len() >= 1,
        insert_canon(rs, r)[0] == r || (rs.len() > 0 && insert_canon(rs, r)[0] == rs[0]),
    decreases rs.len(),
{
    let out = insert_canon(rs, r);
    if rs.len() == 0 {
        assert forall|x: TodoRecordView| has_record(out, x) implies (has_record(rs, x) || x
            == r) by {
            let i = choose|i: int| 0 <= i < out.len() && out[i] == x;
        }
        assert(out[0] == r);
    } else {
        lemma_record_total(r, rs[0]);
        if record_eq(r, rs[0]) {
            assert(rs[0] == r);
            assert forall|x: TodoRecordView| (has_record(rs, x) || x == r) implies has_record(
                out,
                x,
            ) by {
                if x == r {
                    assert(out[0] == x);
                }
            }
        } else if record_lt(r, rs[0]) {
            assert(out =~= seq![r] + rs);
            assert forall|a: int| 0 <= a < out.len() - 1 implies record_lt(
                #[trigger] out[a],
                out[a + 1],
            ) by {
                if a > 0 {
                    assert(out[a] == rs[a - 1]);
                    assert(out[a + 1] == rs[a]);
                }
            }
            assert forall|x: TodoRecordView| has_record(out, x) implies (has_record(rs, x) || x
                == r) by {
                let i = choose|i: int| 0 <= i < out.len() && out[i] == x;
                if i > 0 {
                    assert(rs[i - 1] == x);
                }
            }
            assert forall|x: TodoRecordView| (has_record(rs, x) || x == r) implies has_record(
                out,
                x,
            ) by {
                if x == r {
                    assert(out[0] == x);
                } else {
                    let i = choose|i: int| 0 <= i < rs.len() && rs[i] == x;
                    assert(out[i + 1] == x);
                }
            }
        } else {
            assert(record_lt(rs[0], r));
            let tail = rs.skip(1);
            assert(canonical(tail)) by {
                assert(forall|a: int|
                    0 <= a < tail.len() - 1 ==> (#[trigger] tail[a]) == rs[a + 1] && tail[a + 1]
                        == rs[a + 2]);
            }
            lemma_insert_canon_props(tail, r);
            let inner = insert_canon(tail, r);
            assert(out =~= seq![rs[0]] + inner);
            assert(record_lt(out[0], out[1])) by {
                if inner[0] == r {
                } else {
                    assert(inner[0] == tail[0]);
                    assert(tail[0] == rs[1]);
                }
            }
            assert forall|a: int| 0 <= a < out.len() - 1 implies record_lt(
                #[trigger] out[a],
                out[a + 1],
            ) by {
                if a > 0 {
                    assert(out[a] == inner[a - 1]);
                    assert(out[a + 1] == inner[a]);
                }
            }
            assert forall|x: TodoRecordView| has_record(out, x) implies (has_record(rs, x) || x
                == r) by {
                let i = choose|i: int| 0 <= i < out.len() && out[i] == x;
                if i == 0 {
                    assert(rs[0] == x);
                } else {
                    assert(inner[i - 1] == x);
                    assert(has_record(inner, x));
                    if has_record(tail, x) {
                        let j = choose|j: int| 0 <= j < tail.len() && tail[j] == x;
                        assert(rs[j + 1] == x);
                    }
                }
            }
            assert forall|x: TodoRecordView| (has_record(rs, x) || x == r) implies has_record(
                out,
                x,
            ) by {
                if x == r {
                    assert(has_record(inner, x) <==> (has_record(tail, x) || x == r));
                    assert(has_record(inner, x));
                    let j = choose|j: int| 0 <= j < inner.len() && inner[j] == x;
                    assert(out[j + 1] == x);
                } else {
                    let i = choose|i: int| 0 <= i < rs.len() && rs[i] == x;
                    if i == 0 {
                        assert(out[0] == x);
                    } else {
                        assert(tail[i - 1] == x);
                        assert(has_record(tail, x));
                        assert(has_record(inner, x) <==> (has_record(tail, x) || x == r));
                        assert(has_record(inner, x));
                        let j = choose|j: int| 0 <= j < inner.len() && inner[j] == x;
                        assert(out[j + 1] == x);
                    }
                }
            }
        }
    }
}

/// The canonical version is canonical and has exactly the same members.
pub proof fn lemma_canon_spec_props(rs: Seq<TodoRecordView>)
    ensures
        canonical(canon_spec(rs)),
        forall|x: TodoRecordView|
            #![trigger has_record(canon_spec(rs), x)]
            has_record(canon_spec(rs), x) <==> has_record(rs, x),
    decreases rs.len(),
{
    if rs.len() == 0 {
        assert forall|x: TodoRecordView| has_record(canon_spec(rs), x) implies has_record(
            rs,
            x,
        ) by {
            let i = choose|i: int| 0 <= i < canon_spec(rs).len() && canon_spec(rs)[i] == x;
        }
    } else {
        let front = rs.take(rs.len() - 1);
        lemma_canon_spec_props(front);
        lemma_insert_canon_props(canon_spec(front), rs.last());
        assert forall|x: TodoRecordView| has_record(canon_spec(rs), x) implies has_record(
            rs,
            x,
        ) by {
            if has_record(front, x) {
                let i = choose|i: int| 0 <= i < front.len() && front[i] == x;
                assert(rs[i] == x);
            } else {
                assert(x == rs.last());
                assert(rs[rs.len() - 1] == x);
            }
        }
        assert forall|x: TodoRecordView| has_record(rs, x) implies has_record(
            canon_spec(rs),
            x,
        ) by {
            let i = choose|i: int| 0 <= i < rs.len() && rs[i] == x;
            if i < rs.len() - 1 {
                assert(front[i] == x);
                assert(has_record(front, x));
            } else {
                assert(x == rs.last());
            }
        }
    }
}

/// Inserting a record greater than everything appends it.
pub proof fn lemma_insert_canon_append(rs: Seq<TodoRecordView>, r: TodoRecordView)
    requires
        canonical(rs),
        forall|i: int| 0 <= i < rs.len() ==> record_lt(#[trigger] rs[i], r),
    ensures
        insert_canon(rs, r) == rs.push(r),
    decreases rs.len(),
{
    if rs.len() == 0 {
        assert(insert_canon(rs, r) =~= rs.push(r));
    } else {
        lemma_record_total(r, rs[0]);
        let tail = rs.skip(1);
        assert(canonical(tail) && forall|i: int|
            0 <= i < tail.len() ==> record_lt(#[trigger] tail[i], r)) by {
            assert(forall|a: int| 0 <= a < tail.len() ==> (#[trigger] tail[a]) == rs[a + 1]);
            assert(forall|a: int|
                0 <= a < tail.len() - 1 ==> record_lt(#[trigger] tail[a], tail[a + 1]));
        }
        lemma_insert_canon_append(tail, r);
        assert(insert_canon(rs, r) =~= rs.push(r));
    }
}

/// An already canonical sequence is its own canonical version.
pub proof fn lemma_canon_of_canonical(rs: Seq<TodoRecordView>)
    requires
        canonical(rs),
    ensures
        canon_spec(rs) == rs,
    decreases rs.len(),
{
    if rs.len() == 0 {
        assert(canon_spec(rs) =~= rs);
    } else {
        let front = rs.take(rs.len() - 1);
        assert(canonical(front)) by {
            assert(forall|a: int|
                0 <= a < front.len() - 1 ==> (#[trigger] front[a]) == rs[a] && front[a + 1] == rs[a
                    + 1]);
        }
        lemma_canon_of_canonical(front);
        assert forall|i: int| 0 <= i < front.len() implies record_lt(
            #[trigger] front[i],
            rs.last(),
        ) by {
            lemma_canonical_pair(rs, i, rs.len() - 1);
        }
        lemma_insert_canon_append(front, rs.last());
        assert(front.push(rs.last()) =~= rs);
    }
}

/// Serialized body lines carry no newline.
pub proof fn lemma_ser_records_no_newline(
    rs: Seq<TodoRecordView>,
    prev_pack: Option<Seq<char>>,
    prev_type: Option<CheckerType>,
)
    requires
        wf_records(rs),
    ensures
        forall|i: int|
            0 <= i < ser_records(rs, prev_pack, prev_type).len() ==> !(#[trigger] ser_records(
                rs,
                prev_pack,
                prev_type,
            )[i]).contains('\n'),
    decreases rs.len(),
{
    if rs.len() == 0 {
    } else {
        let r = rs[0];
        assert(wf_record(r));
        lemma_entry_line_shape(r);
        lemma_type_line_shape(r.violation_type);
        lemma_pack_line_shape(r.defining_pack_name);
        assert(wf_records(rs.skip(1))) by {
            assert(forall|i: int| 0 <= i < rs.skip(1).len() ==> rs.skip(1)[i] == rs[i + 1]);
        }
        lemma_ser_records_no_newline(rs.skip(1), Some(r.defining_pack_name), Some(r.violation_type));
        let out = ser_records(rs, prev_pack, prev_type);
        let rest = ser_records(rs.skip(1), Some(r.defining_pack_name), Some(r.violation_type));
        let headers: Seq<Seq<char>> = if prev_pack != Some(r.defining_pack_name) {
            seq![pack_header_line(r.defining_pack_name), type_line(r.violation_type)]
        } else if prev_type != Some(r.violation_type) {
            seq![type_line(r.violation_type)]
        } else {
            Seq::empty()
        };
        assert(out =~= headers + seq![entry_line(r)] + rest);
        assert forall|i: int| 0 <= i < out.len() implies !(#[trigger] out[i]).contains('\n') by {
            if i < headers.len() {
                assert(out[i] == headers[i]);
            } else if i == headers.len() {
                assert(out[i] == entry_line(r));
            } else {
                assert(out[i] == rest[i - headers.len() - 1]);
            }
        }
    }
}

/// All lines of a serialized ledger file carry no newline.
pub proof fn lemma_ser_todo_lines_no_newline(
    pack: Seq<char>,
    rs: Seq<TodoRecordView>,
    packs_first_mode: bool,
)
    requires
        wf_records(rs),
        !pack.contains('\n'),
    ensures
        forall|i: int|
            0 <= i < ser_todo_lines(pack, rs, packs_first_mode).len() ==> !(
            #[trigger] ser_todo_lines(pack, rs, packs_first_mode)[i]).contains('\n'),
{
    reveal_strlit("# This file contains a list of dependencies that are not part of the long term plan for the");
    reveal_strlit("# '");
    reveal_strlit("' package.");
    reveal_strlit("# We should generally work to reduce this list over time.");
    reveal_strlit("#");
    reveal_strlit("# You can regenerate this file using the following command:");
    reveal_strlit("# pks update");
    reveal_strlit("# bin/packwerk update-todo");
    reveal_strlit("---");
    lemma_ser_records_no_newline(rs, None, None);
    let hs = header_comment_lines(pack, packs_first_mode);
    let body = ser_records(rs, None, None);
    let lines = ser_todo_lines(pack, rs, packs_first_mode);
    assert(lines =~= hs + seq!["---"@] + body);
    assert(!hs[1].contains('\n')) by {
        strutil::lemma_concat_contains("# '"@ + pack, "' package."@, '\n');
        strutil::lemma_concat_contains("# '"@, pack, '\n');
        assert(!("# '"@).contains('\n')) by {
            if ("# '"@).contains('\n') {
                let i = choose|i: int| 0 <= i < 3 && ("# '"@)[i] == '\n';
            }
        }
        assert(!("' package."@).contains('\n')) by {
            if ("' package."@).contains('\n') {
                let i = choose|i: int| 0 <= i < 10 && ("' package."@)[i] == '\n';
            }
        }
    }
    assert forall|i: int| 0 <= i < lines.len() implies !(#[trigger] lines[i]).contains('\n') by {
        if i < hs.len() {
            assert(lines[i] == hs[i]);
            if i != 1 && lines[i].contains('\n') {
                let k = choose|k: int| 0 <= k < lines[i].len() && lines[i][k] == '\n';
            }
        } else if i == hs.len() {
            assert(lines[i] == "---"@);
            if lines[i].contains('\n') {
                let k = choose|k: int| 0 <= k < 3 && ("---"@)[k] == '\n';
            }
        } else {
            assert(lines[i] == body[i - hs.len() - 1]);
        }
    }
}

/// Whatever the body parser accepts is made of well-formed records.
pub proof fn lemma_parse_records_wf(
    lines: Seq<Seq<char>>,
    cur_pack: Option<Seq<char>>,
    cur_type: Option<CheckerType>,
)
    requires
        forall|i: int| 0 <= i < lines.len() ==> !(#[trigger] lines[i]).contains('\n'),
        cur_pack matches Some(p) ==> wf_name(p),
    ensures
        parse_records(lines, cur_pack, cur_type) matches Some(rs) ==> wf_records(rs),
    decreases lines.len(),
{
    reveal_strlit(": ");
    if lines.len() == 0 {
    } else {
        let l = lines[0];
        assert(forall|i: int|
            0 <= i < lines.skip(1).len() ==> lines.skip(1)[i] == lines[i + 1]);
        if is_entry_line(l) {
            if cur_pack is Some && cur_type is Some {
                let b = l.skip(4);
                let k = find_sep(b);
                if k >= 0 {
                    lemma_find_sep_first(b);
                    let c = b.take(k);
                    assert(!c.contains('\n')) by {
                        if c.contains('\n') {
                            strutil::lemma_subrange_contains(b, 0, k, '\n');
                            strutil::lemma_subrange_contains(l, 4, l.len() as int, '\n');
                        }
                    }
                    assert(!contains_seq(c, ": "@)) by {
                        if contains_seq(c, ": "@) {
                            let i = choose|i: int| strutil::occurs_at(c, ": "@, i);
                            assert(c.subrange(i, i + 2) == ": "@);
                            assert(c.subrange(i, i + 2)[0] == c[i]);
                            assert(c.subrange(i, i + 2)[1] == c[i + 1]);
                            assert(c[i] == ':' && c[i + 1] == ' ');
                            assert(b[i] == ':' && b[i + 1] == ' ');
                        }
                    }
                    assert(!b.skip(k + 2).contains('\n')) by {
                        if b.skip(k + 2).contains('\n') {
                            strutil::lemma_subrange_contains(b, k + 2, b.len() as int, '\n');
                            strutil::lemma_subrange_contains(l, 4, l.len() as int, '\n');
                        }
                    }
                    lemma_parse_records_wf(lines.skip(1), cur_pack, cur_type);
                    match parse_records(lines.skip(1), cur_pack, cur_type) {
                        Some(rest) => {
                            let rec = TodoRecordView {
                                defining_pack_name: cur_pack->0,
                                violation_type: cur_type->0,
                                constant_name: c,
                                file: b.skip(k + 2),
                            };
                            assert(wf_record(rec));
                            let rs = seq![rec] + rest;
                            assert(wf_records(rs)) by {
                                assert(forall|i: int|
                                    1 <= i < rs.len() ==> rs[i] == rest[i - 1]);
                                assert(rs[0] == rec);
                            }
                        },
                        None => {},
                    }
                }
            }
        } else if is_indented_line(l) {
            lemma_parse_records_wf(lines.skip(1), cur_pack, cur_type);
            if l.len() >= 3 && l[l.len() - 1] == ':' && cur_pack is Some {
                match parse_type_name(l.subrange(2, l.len() - 1)) {
                    Some(t) => {
                        lemma_parse_records_wf(lines.skip(1), cur_pack, Some(t));
                    },
                    None => {},
                }
            }
        } else {
            if l.len() >= 2 && l[0] != ' ' && l[0] != '#' && l[l.len() - 1] == ':' {
                let name = l.take(l.len() - 1);
                assert(wf_name(name)) by {
                    assert(name[0] == l[0]);
                    if name.contains('\n') {
                        strutil::lemma_subrange_contains(l, 0, l.len() - 1, '\n');
                    }
                }
                lemma_parse_records_wf(lines.skip(1), Some(name), None);
            }
        }
    }
}

/// Whatever the file parser accepts is made of well-formed records.
pub proof fn lemma_parse_todo_wf(lines: Seq<Seq<char>>)
    requires
        forall|i: int| 0 <= i < lines.len() ==> !(#[trigger] lines[i]).contains('\n'),
    ensures
        parse_todo_lines(lines) matches Some(rs) ==> wf_records(rs),
    decreases lines.len(),
{
    if lines.len() == 0 {
    } else {
        assert(forall|i: int|
            0 <= i < lines.skip(1).len() ==> lines.skip(1)[i] == lines[i + 1]);
        if lines[0].len() > 0 && lines[0][0] == '#' {
            lemma_parse_todo_wf(lines.skip(1));
        } else if lines[0] == "---"@ {
            lemma_parse_records_wf(lines.skip(1), None, None);
        }
    }
}

/// Records of a canonical version stay well-formed.
pub proof fn lemma_canon_wf(rs: Seq<TodoRecordView>)
    requires
        wf_records(rs),
    ensures
        wf_records(canon_spec(rs)),
{
    lemma_canon_spec_props(rs);
    let c = canon_spec(rs);
    assert forall|i: int| 0 <= i < c.len() implies wf_record(#[trigger] c[i]) by {
        assert(has_record(c, c[i]));
        assert(has_record(rs, c[i]));
        let j = choose|j: int| 0 <= j < rs.len() && rs[j] == c[i];
        assert(wf_record(rs[j]));
    }
}

/// Canonical-form idempotence: take any text that parses as a ledger.
/// Serializing the parsed ledger yields canonical text; parsing that text
/// returns exactly the canonical records, so serializing once more
/// reproduces the same text byte for byte.
pub proof fn lemma_canonical_form_idempotence(
    content: Seq<char>,
    t: Seq<TodoRecordView>,
    pack: Seq<char>,
    packs_first_mode: bool,
)
    requires
        parse_todo_lines(split_lines_spec(content)) == Some(t),
        !pack.contains('\n'),
    ensures
        parse_todo_lines(
            split_lines_spec(
                join_lines_spec(ser_todo_lines(pack, canon_spec(t), packs_first_mode)),
            ),
        ) == Some(canon_spec(t)),
        join_lines_spec(ser_todo_lines(pack, canon_spec(canon_spec(t)), packs_first_mode))
            == join_lines_spec(ser_todo_lines(pack, canon_spec(t), packs_first_mode)),
{
    strutil::lemma_split_lines_no_newline(content);
    lemma_parse_todo_wf(split_lines_spec(content));
    assert(wf_records(t));
    lemma_canon_wf(t);
    lemma_canon_spec_props(t);
    lemma_parse_todo_file(pack, canon_spec(t), packs_first_mode);
    lemma_ser_todo_lines_no_newline(pack, canon_spec(t), packs_first_mode);
    strutil::lemma_split_join(ser_todo_lines(pack, canon_spec(t), packs_first_mode));
    lemma_canon_of_canonical(canon_spec(t));
}

} // verus!
