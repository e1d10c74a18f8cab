//! The line-oriented record format of the store.
//!
//! The persisted form is plain text: one record per line, a line being the
//! bytes up to the next line feed. Within a line, the first two
//! whitespace-delimited tokens are the username and the password; anything
//! after the second token is ignored. A line with no token is blank; a line
//! with exactly one token is malformed. In permissive mode malformed lines
//! are silently skipped; in strict mode they are reported as an error.

use vstd::prelude::*;

verus! {

/// One username/password pair.
#[derive(Debug, PartialEq, Eq)]
pub struct Record {
    pub username: Vec<u8>,
    pub password: Vec<u8>,
}

impl View for Record {
    type V = (Seq<u8>, Seq<u8>);

    open spec fn view(&self) -> (Seq<u8>, Seq<u8>) {
        (self.username@, self.password@)
    }
}

/// The sequence of username/password pairs a sequence of records stands for.
pub open spec fn records_view(rs: Seq<Record>) -> Seq<(Seq<u8>, Seq<u8>)> {
    rs.map(|i: int, r: Record| r@)
}

/// How a malformed line (one token, no password) is treated when the
/// persisted form is read back.
#[derive(Clone, Copy, PartialEq, Eq, Structural, Debug)]
pub enum ParseMode {
    /// Malformed lines are silently skipped.
    Permissive,
    /// A malformed line is reported as an error.
    Strict,
}

/// Why the persisted form was rejected.
#[derive(Clone, Copy, PartialEq, Eq, Structural, Debug)]
pub enum ParseError {
    /// Some line holds a username token but no password token.
    MalformedRecord,
}

/// Whitespace that separates tokens within a line: space, horizontal tab,
/// vertical tab, form feed, carriage return.
pub open spec fn is_space(b: u8) -> bool {
    b == 32 || b == 9 || b == 11 || b == 12 || b == 13
}

/// The line feed byte, which ends a line.
pub open spec fn is_newline(b: u8) -> bool {
    b == 10
}

/// The first index at or after `i` holding a non-whitespace byte, or the
/// length if there is none.
pub open spec fn space_end(s: Seq<u8>, i: int) -> int
    recommends
        0 <= i <= s.len(),
    decreases s.len() - i,
{
    if i < 0 || i >= s.len() {
        s.len() as int
    } else if is_space(s[i]) {
        space_end(s, i + 1)
    } else {
        i
    }
}

/// The first index at or after `i` holding a whitespace byte, or the length
/// if there is none: the end of the token starting at `i`.
pub open spec fn token_end(s: Seq<u8>, i: int) -> int
    recommends
        0 <= i <= s.len(),
    decreases s.len() - i,
{
    if i < 0 || i >= s.len() {
        s.len() as int
    } else if is_space(s[i]) {
        i
    } else {
        token_end(s, i + 1)
    }
}

/// The first index at or after `i` holding a line feed, or the length if
/// there is none: the end of the line starting at `i`.
pub open spec fn line_end(s: Seq<u8>, i: int) -> int
    recommends
        0 <= i <= s.len(),
    decreases s.len() - i,
{
    if i < 0 || i >= s.len() {
        s.len() as int
    } else if is_newline(s[i]) {
        i
    } else {
        line_end(s, i + 1)
    }
}

/// The record a single line (with its line feed already stripped) stands
/// for: its first two whitespace-delimited tokens. `None` for a blank line
/// and for a malformed one.
pub open spec fn line_record(line: Seq<u8>) -> Option<(Seq<u8>, Seq<u8>)> {
    let a = space_end(line, 0);
    let b = token_end(line, a);
    let c = space_end(line, b);
    let d = token_end(line, c);
    if a == b || c == d {
        None
    } else {
        Some((line.subrange(a, b), line.subrange(c, d)))
    }
}

/// A line that is neither blank nor a record: it holds a username token but
/// no password token.
pub open spec fn line_is_malformed(line: Seq<u8>) -> bool {
    line_record(line) is None && space_end(line, 0) < line.len()
}

/// The records of the lines of `s` from index `i` on, in line order,
/// blank and malformed lines skipped.
pub open spec fn records_from(s: Seq<u8>, i: int) -> Seq<(Seq<u8>, Seq<u8>)>
    decreases s.len() - i + 1,
        via records_from_dec
{
    if i < 0 || i >= s.len() {
        Seq::empty()
    } else {
        let e = line_end(s, i);
        let rest = records_from(s, e + 1);
        match line_record(s.subrange(i, e)) {
            Some(r) => seq![r] + rest,
            None => rest,
        }
    }
}

#[via_fn]
proof fn records_from_dec(s: Seq<u8>, i: int) {
    if 0 <= i && i < s.len() {
        lemma_line_end_bounds(s, i);
    }
}

/// Whether any line of `s` from index `i` on is malformed.
pub open spec fn malformed_from(s: Seq<u8>, i: int) -> bool
    decreases s.len() - i + 1,
        via malformed_from_dec
{
    if i < 0 || i >= s.len() {
        false
    } else {
        let e = line_end(s, i);
        line_is_malformed(s.subrange(i, e)) || malformed_from(s, e + 1)
    }
}

#[via_fn]
proof fn malformed_from_dec(s: Seq<u8>, i: int) {
    if 0 <= i && i < s.len() {
        lemma_line_end_bounds(s, i);
    }
}

/// The records the persisted byte form `s` stands for, in line order.
pub open spec fn records_of(s: Seq<u8>) -> Seq<(Seq<u8>, Seq<u8>)> {
    records_from(s, 0)
}

/// Whether any line of the persisted byte form `s` is malformed.
pub open spec fn has_malformed_line(s: Seq<u8>) -> bool {
    malformed_from(s, 0)
}

/// A byte string that survives the persisted form unchanged: non-empty,
/// with no whitespace and no line feed in it. A record of two tokens is
/// read back exactly as it was written.
pub open spec fn is_token(t: Seq<u8>) -> bool {
    t.len() > 0 && forall|i: int|
        0 <= i < t.len() ==> !is_space(#[trigger] t[i]) && !is_newline(t[i])
}

/// Whether `t` survives the persisted form unchanged.
pub fn token_ok(t: &[u8]) -> (r: bool)
    ensures
        r == is_token(t@),
{
    if t.len() == 0 {
        return false;
    }
    let mut i: usize = 0;
    while i < t.len()
        invariant
            i <= t@.len(),
            forall|k: int| 0 <= k < i ==> !is_space(#[trigger] t@[k]) && !is_newline(t@[k]),
        decreases t@.len() - i,
    {
        if byte_is_space(t[i]) || t[i] == 10 {
            return false;
        }
        i = i + 1;
    }
    true
}

/// `space_end` lands on the first non-whitespace byte at or after `i`.
pub proof fn lemma_space_end_bounds(s: Seq<u8>, i: int)
    requires
        0 <= i <= s.len(),
    ensures
        i <= space_end(s, i) <= s.len(),
        forall|k: int| i <= k < space_end(s, i) ==> is_space(#[trigger] s[k]),
        space_end(s, i) < s.len() ==> !is_space(s[space_end(s, i)]),
    decreases s.len() - i,
{
    if i < s.len() && is_space(s[i]) {
        lemma_space_end_bounds(s, i + 1);
    }
}

/// `token_end` lands on the first whitespace byte at or after `i`.
pub proof fn lemma_token_end_bounds(s: Seq<u8>, i: int)
    requires
        0 <= i <= s.len(),
    ensures
        i <= token_end(s, i) <= s.len(),
        forall|k: int| i <= k < token_end(s, i) ==> !is_space(#[trigger] s[k]),
        token_end(s, i) < s.len() ==> is_space(s[token_end(s, i)]),
    decreases s.len() - i,
{
    if i < s.len() && !is_space(s[i]) {
        lemma_token_end_bounds(s, i + 1);
    }
}

/// `line_end` lands on the first line feed at or after `i`.
pub proof fn lemma_line_end_bounds(s: Seq<u8>, i: int)
    requires
        0 <= i <= s.len(),
    ensures
        i <= line_end(s, i) <= s.len(),
        forall|k: int| i <= k < line_end(s, i) ==> !is_newline(#[trigger] s[k]),
        line_end(s, i) < s.len() ==> is_newline(s[line_end(s, i)]),
    decreases s.len() - i,
{
    if i < s.len() && !is_newline(s[i]) {
        lemma_line_end_bounds(s, i + 1);
    }
}

/// `space_end` is the only index with whitespace everywhere before it and
/// none at it.
pub proof fn lemma_space_end_at(s: Seq<u8>, i: int, j: int)
    requires
        0 <= i <= j <= s.len(),
        forall|k: int| i <= k < j ==> is_space(#[trigger] s[k]),
        j < s.len() ==> !is_space(s[j]),
    ensures
        space_end(s, i) == j,
    decreases j - i,
{
    if i < j {
        lemma_space_end_at(s, i + 1, j);
    }
}

/// `token_end` is the only index with no whitespace anywhere before it and
/// whitespace at it.
pub proof fn lemma_token_end_at(s: Seq<u8>, i: int, j: int)
    requires
        0 <= i <= j <= s.len(),
        forall|k: int| i <= k < j ==> !is_space(#[trigger] s[k]),
        j < s.len() ==> is_space(s[j]),
    ensures
        token_end(s, i) == j,
    decreases j - i,
{
    if i < j {
        lemma_token_end_at(s, i + 1, j);
    }
}

/// `line_end` is the only index with no line feed anywhere before it and a
/// line feed at it.
pub proof fn lemma_line_end_at(s: Seq<u8>, i: int, j: int)
    requires
        0 <= i <= j <= s.len(),
        forall|k: int| i <= k < j ==> !is_newline(#[trigger] s[k]),
        j < s.len() ==> is_newline(s[j]),
    ensures
        line_end(s, i) == j,
    decreases j - i,
{
    if i < j {
        lemma_line_end_at(s, i + 1, j);
    }
}

/// A line made of two tokens separated by a single space is read back as
/// exactly that record.
pub proof fn lemma_record_line(line: Seq<u8>, u: Seq<u8>, p: Seq<u8>)
    requires
        line == u + seq![32u8] + p,
        is_token(u),
        is_token(p),
    ensures
        line_record(line) == Some((u, p)),
        !line_is_malformed(line),
{
    let ul = u.len() as int;
    let pl = p.len() as int;
    assert(line.len() == ul + 1 + pl);
    assert forall|k: int| 0 <= k < ul implies line[k] == u[k] by {}
    assert(line[ul] == 32);
    assert forall|k: int| ul + 1 <= k < line.len() implies line[k] == p[k - (ul + 1)] by {}
    lemma_space_end_at(line, 0, 0);
    lemma_token_end_at(line, 0, ul);
    lemma_space_end_at(line, ul, ul + 1);
    lemma_token_end_at(line, ul + 1, line.len() as int);
    assert(line.subrange(0, ul) =~= u);
    assert(line.subrange(ul + 1, line.len() as int) =~= p);
}

/// Whether `b` separates tokens within a line.
pub fn byte_is_space(b: u8) -> (r: bool)
    ensures
        r == is_space(b),
{
    b == 32 || b == 9 || b == 11 || b == 12 || b == 13
}

/// Index of the first non-whitespace byte of `line` at or after `from`, or
/// the length if there is none.
fn scan_spaces(line: &[u8], from: usize) -> (r: usize)
    requires
        from <= line@.len(),
    ensures
        r == space_end(line@, from as int),
        from <= r <= line@.len(),
{
    let mut j = from;
    while j < line.len() && byte_is_space(line[j])
        invariant
            from <= j <= line@.len(),
            space_end(line@, from as int) == space_end(line@, j as int),
        decreases line@.len() - j,
    {
        j = j + 1;
    }
    j
}

/// Index of the first whitespace byte of `line` at or after `from`, or the
/// length if there is none.
fn scan_token(line: &[u8], from: usize) -> (r: usize)
    requires
        from <= line@.len(),
    ensures
        r == token_end(line@, from as int),
        from <= r <= line@.len(),
{
    let mut j = from;
    while j < line.len() && !byte_is_space(line[j])
        invariant
            from <= j <= line@.len(),
            token_end(line@, from as int) == token_end(line@, j as int),
        decreases line@.len() - j,
    {
        j = j + 1;
    }
    j
}

/// Index of the first line feed of `content` at or after `from`, or the
/// length if there is none.
fn scan_line(content: &[u8], from: usize) -> (r: usize)
    requires
        from <= content@.len(),
    ensures
        r == line_end(content@, from as int),
        from <= r <= content@.len(),
{
    let mut j = from;
    while j < content.len() && content[j] != 10
        invariant
            from <= j <= content@.len(),
            line_end(content@, from as int) == line_end(content@, j as int),
        decreases content@.len() - j,
    {
        j = j + 1;
    }
    j
}

/// The record a single line stands for, or `None` for a blank or malformed
/// line.
pub fn parse_line(line: &[u8]) -> (r: Option<Record>)
    ensures
        match r {
            Some(rec) => line_record(line@) == Some(rec@),
            None => line_record(line@) is None,
        },
{
    let a = scan_spaces(line, 0);
    let b = scan_token(line, a);
    let c = scan_spaces(line, b);
    let d = scan_token(line, c);
    if a == b || c == d {
        None
    } else {
        Some(
            Record {
                username: vstd::slice::slice_to_vec(vstd::slice::slice_subrange(line, a, b)),
                password: vstd::slice::slice_to_vec(vstd::slice::slice_subrange(line, c, d)),
            },
        )
    }
}

/// All records of the persisted byte form, in line order. In strict mode a
/// malformed line is an error; in permissive mode it is skipped.
pub fn parse_records(content: &[u8], mode: ParseMode) -> (r: Result<Vec<Record>, ParseError>)
    ensures
        match r {
            Ok(recs) => {
                &&& records_view(recs@) == records_of(content@)
                &&& (mode == ParseMode::Strict ==> !has_malformed_line(content@))
            },
            Err(e) => {
                &&& e == ParseError::MalformedRecord
                &&& mode == ParseMode::Strict
                &&& has_malformed_line(content@)
            },
        },
{
    let ghost s = content@;
    let mut out: Vec<Record> = Vec::new();
    let mut i: usize = 0;
    while i < content.len()
        invariant
            s == content@,
            i <= s.len(),
            records_of(s) == records_view(out@) + records_from(s, i as int),
            mode == ParseMode::Strict ==> has_malformed_line(s) == malformed_from(s, i as int),
        decreases s.len() - i,
    {
        let ghost i0 = i as int;
        let e = scan_line(content, i);
        let line = vstd::slice::slice_subrange(content, i, e);
        let ghost lv = s.subrange(i0, e as int);
        let ghost prev = out@;
        proof {
            lemma_line_end_bounds(s, i0);
        }
        match parse_line(line) {
            Some(rec) => {
                proof {
                    assert(records_from(s, i0) == seq![rec@] + records_from(s, e as int + 1));
                    assert(!line_is_malformed(lv));
                }
                out.push(rec);
                proof {
                    assert(records_view(out@) =~= records_view(prev).push(rec@));
                    assert(records_view(prev).push(rec@) + records_from(s, e as int + 1)
                        =~= records_view(prev) + (seq![rec@] + records_from(s, e as int + 1)));
                }
            },
            None => {
                proof {
                    assert(records_from(s, i0) == records_from(s, e as int + 1));
                }
                if matches!(mode, ParseMode::Strict) {
                    let blank_to = scan_spaces(line, 0);
                    if blank_to < line.len() {
                        proof {
                            assert(line_is_malformed(lv));
                            assert(malformed_from(s, i0));
                        }
                        return Err(ParseError::MalformedRecord);
                    }
                    proof {
                        assert(!line_is_malformed(lv));
                        assert(malformed_from(s, i0) == malformed_from(s, e as int + 1));
                    }
                }
            },
        }
        proof {
            if mode == ParseMode::Strict {
                assert(malformed_from(s, i0) == malformed_from(s, e as int + 1));
            }
        }
        if e == content.len() {
            proof {
                assert(records_from(s, e as int + 1) =~= records_from(s, s.len() as int));
                assert(malformed_from(s, e as int + 1) == malformed_from(s, s.len() as int));
            }
            i = e;
        } else {
            i = e + 1;
        }
    }
    proof {
        assert(records_from(s, i as int) =~= Seq::<(Seq<u8>, Seq<u8>)>::empty());
        assert(!malformed_from(s, i as int));
        assert(records_of(s) =~= records_view(out@));
    }
    Ok(out)
}

} // verus!
