//! The credential store: an append-only registry of username/password
//! records with duplicate-safe registration and read-only verification.
//!
//! The store itself is an in-memory sequence of records. Durability is the
//! caller's business: a store is loaded from the persisted byte form with
//! [`CredentialStore::load`], and a successful registration corresponds to
//! appending [`encode_record`] of the new pair to that persisted form.

use vstd::prelude::*;

use crate::parse::{
    has_malformed_line, is_newline, is_token, lemma_line_end_at, lemma_line_end_bounds,
    lemma_record_line, malformed_from, parse_records, records_from, records_of, records_view,
    ParseError, ParseMode, Record,
};

verus! {

/// Why a registration was rejected.
#[derive(Clone, Copy, PartialEq, Eq, Structural, Debug)]
pub enum RegisterError {
    /// Some record already holds the requested username.
    DuplicateUsername,
    /// The persisted form could not be read or written. Never produced by
    /// the in-memory store; reserved for the caller that owns the durable
    /// resource.
    IoFailure,
}

/// Some record of `s` holds the username `u`.
pub open spec fn has_user(s: Seq<(Seq<u8>, Seq<u8>)>, u: Seq<u8>) -> bool {
    exists|i: int| 0 <= i < s.len() && (#[trigger] s[i]).0 == u
}

/// Some record of `s` holds the username `u` together with the password `p`.
pub open spec fn has_credential(s: Seq<(Seq<u8>, Seq<u8>)>, u: Seq<u8>, p: Seq<u8>) -> bool {
    exists|i: int| 0 <= i < s.len() && (#[trigger] s[i]).0 == u && s[i].1 == p
}

/// Whether two byte strings hold the same bytes.
fn bytes_eq(a: &[u8], b: &[u8]) -> (r: bool)
    ensures
        r == (a@ == b@),
{
    if a.len() != b.len() {
        return false;
    }
    let mut i: usize = 0;
    while i < a.len()
        invariant
            a@.len() == b@.len(),
            i <= a@.len(),
            forall|k: int| 0 <= k < i ==> a@[k] == b@[k],
        decreases a@.len() - i,
    {
        if a[i] != b[i] {
            return false;
        }
        i = i + 1;
    }
    proof {
        assert(a@ =~= b@);
    }
    true
}

/// The registry of username/password records, in registration order.
pub struct CredentialStore {
    records: Vec<Record>,
}

impl View for CredentialStore {
    type V = Seq<(Seq<u8>, Seq<u8>)>;

    closed spec fn view(&self) -> Seq<(Seq<u8>, Seq<u8>)> {
        records_view(self.records@)
    }
}

impl CredentialStore {
    /// An empty store, as a caller sees one whose persisted form is absent.
    pub fn new() -> (s: Self)
        ensures
            s@ == Seq::<(Seq<u8>, Seq<u8>)>::empty(),
    {
        let s = CredentialStore { records: Vec::new() };
        proof {
            assert(s@ =~= Seq::<(Seq<u8>, Seq<u8>)>::empty());
        }
        s
    }

    /// The store the persisted byte form stands for. In strict mode a
    /// malformed line is an error; in permissive mode it is skipped.
    pub fn load(content: &[u8], mode: ParseMode) -> (r: Result<Self, ParseError>)
        ensures
            match r {
                Ok(s) => {
                    &&& s@ == records_of(content@)
                    &&& (mode == ParseMode::Strict ==> !has_malformed_line(content@))
                },
                Err(e) => {
                    &&& e == ParseError::MalformedRecord
                    &&& mode == ParseMode::Strict
                    &&& has_malformed_line(content@)
                },
            },
    {
        match parse_records(content, mode) {
            Ok(records) => Ok(CredentialStore { records }),
            Err(e) => Err(e),
        }
    }

    /// How many records the store holds.
    pub fn len(&self) -> (n: usize)
        ensures
            n == self@.len(),
    {
        self.records.len()
    }

    /// Whether some record holds this username, by a linear scan in record
    /// order. Reads the store and nothing more: the store is unchanged by
    /// any number of calls.
    pub fn username_exists(&self, username: &[u8]) -> (r: bool)
        ensures
            r == has_user(self@, username@),
    {
        let mut i: usize = 0;
        while i < self.records.len()
            invariant
                i <= self.records@.len(),
                forall|k: int| 0 <= k < i ==> (#[trigger] self@[k]).0 != username@,
            decreases self.records@.len() - i,
        {
            if bytes_eq(self.records[i].username.as_slice(), username) {
                proof {
                    assert(self@[i as int].0 == username@);
                }
                return true;
            }
            i = i + 1;
        }
        false
    }

    /// Whether some record holds this username together with this password,
    /// by a linear scan in record order. An absent username and a wrong
    /// password both give `false`.
    pub fn verify(&self, username: &[u8], password: &[u8]) -> (r: bool)
        ensures
            r == has_credential(self@, username@, password@),
    {
        let mut i: usize = 0;
        while i < self.records.len()
            invariant
                i <= self.records@.len(),
                forall|k: int|
                    0 <= k < i ==> !((#[trigger] self@[k]).0 == username@ && self@[k].1
                        == password@),
            decreases self.records@.len() - i,
        {
            if bytes_eq(self.records[i].username.as_slice(), username) && bytes_eq(
                self.records[i].password.as_slice(),
                password,
            ) {
                proof {
                    assert(self@[i as int].0 == username@ && self@[i as int].1 == password@);
                }
                return true;
            }
            i = i + 1;
        }
        false
    }

    /// Append a new record, unless the username is already taken: then the
    /// registration is rejected and the store is left as it was. Prior
    /// records are never overwritten or reordered.
    pub fn register(&mut self, username: Vec<u8>, password: Vec<u8>) -> (r: Result<
        (),
        RegisterError,
    >)
        ensures
            match r {
                Ok(()) => {
                    &&& !has_user(old(self)@, username@)
                    &&& final(self)@ == old(self)@.push((username@, password@))
                },
                Err(RegisterError::DuplicateUsername) => {
                    &&& has_user(old(self)@, username@)
                    &&& final(self)@ == old(self)@
                },
                Err(RegisterError::IoFailure) => false,
            },
    {
        if self.username_exists(username.as_slice()) {
            return Err(RegisterError::DuplicateUsername);
        }
        let ghost prev = self.records@;
        let rec = Record { username, password };
        self.records.push(rec);
        proof {
            assert(records_view(self.records@) =~= records_view(prev).push(rec@));
        }
        Ok(())
    }
}

/// The persisted byte form of one record: the username, one space, the
/// password, one line feed.
pub open spec fn encoded_record(u: Seq<u8>, p: Seq<u8>) -> Seq<u8> {
    u + seq![32u8] + p + seq![10u8]
}

/// Encode one record as the line a successful registration appends to the
/// persisted form.
pub fn encode_record(username: &[u8], password: &[u8]) -> (r: Vec<u8>)
    ensures
        r@ == encoded_record(username@, password@),
{
    let mut out: Vec<u8> = Vec::new();
    let mut i: usize = 0;
    while i < username.len()
        invariant
            i <= username@.len(),
            out@ == username@.subrange(0, i as int),
        decreases username@.len() - i,
    {
        out.push(username[i]);
        proof {
            assert(out@ =~= username@.subrange(0, i as int + 1));
        }
        i = i + 1;
    }
    proof {
        assert(out@ =~= username@);
    }
    out.push(32);
    let mut j: usize = 0;
    while j < password.len()
        invariant
            j <= password@.len(),
            out@ == username@ + seq![32u8] + password@.subrange(0, j as int),
        decreases password@.len() - j,
    {
        out.push(password[j]);
        proof {
            assert(out@ =~= username@ + seq![32u8] + password@.subrange(0, j as int + 1));
        }
        j = j + 1;
    }
    out.push(10);
    proof {
        assert(out@ =~= encoded_record(username@, password@));
    }
    out
}

/// The whole registration decision against a persisted form read
/// permissively: the line to append to it, or the rejection. The caller
/// that owns the durable resource appends the returned line unchanged.
pub fn register_line(content: &[u8], username: &[u8], password: &[u8]) -> (r: Result<
    Vec<u8>,
    RegisterError,
>)
    ensures
        match r {
            Ok(line) => {
                &&& !has_user(records_of(content@), username@)
                &&& line@ == encoded_record(username@, password@)
            },
            Err(RegisterError::DuplicateUsername) => has_user(records_of(content@), username@),
            Err(RegisterError::IoFailure) => false,
        },
{
    match CredentialStore::load(content, ParseMode::Permissive) {
        Ok(store) => {
            if store.username_exists(username) {
                Err(RegisterError::DuplicateUsername)
            } else {
                Ok(encode_record(username, password))
            }
        },
        Err(_) => {
            // a permissive load never fails
            proof {
                assert(false);
            }
            Err(RegisterError::IoFailure)
        },
    }
}

/// The lines of `s + encoded_record(u, p)` from index `i` on are the lines
/// of `s` from `i` on followed by the one encoded line.
proof fn lemma_round_trip_from(s: Seq<u8>, u: Seq<u8>, p: Seq<u8>, i: int)
    requires
        0 <= i <= s.len(),
        s.len() > 0 ==> is_newline(s[s.len() - 1]),
        is_token(u),
        is_token(p),
    ensures
        records_from(s + encoded_record(u, p), i) == records_from(s, i).push((u, p)),
        malformed_from(s + encoded_record(u, p), i) == malformed_from(s, i),
    decreases s.len() - i,
{
    let t = s + encoded_record(u, p);
    let ul = u.len() as int;
    let pl = p.len() as int;
    if i == s.len() {
        let e = i + ul + 1 + pl;
        assert(t.len() == e + 1);
        assert forall|k: int| i <= k < e implies !is_newline(#[trigger] t[k]) by {
            if k < i + ul {
                assert(t[k] == u[k - i]);
            } else if k == i + ul {
                assert(t[k] == 32);
            } else {
                assert(t[k] == p[k - (i + ul + 1)]);
            }
        }
        assert(is_newline(t[e]));
        lemma_line_end_at(t, i, e);
        assert(t.subrange(i, e) =~= u + seq![32u8] + p);
        lemma_record_line(t.subrange(i, e), u, p);
        assert(records_from(t, e + 1) =~= Seq::<(Seq<u8>, Seq<u8>)>::empty());
        assert(records_from(s, i) =~= Seq::<(Seq<u8>, Seq<u8>)>::empty());
        assert(records_from(t, i) =~= records_from(s, i).push((u, p)));
        assert(!malformed_from(t, e + 1));
        assert(!malformed_from(t, i));
        assert(!malformed_from(s, i));
    } else {
        lemma_line_end_bounds(s, i);
        let e = crate::parse::line_end(s, i);
        assert(e < s.len());
        assert forall|k: int| i <= k < e implies !is_newline(#[trigger] t[k]) by {
            assert(t[k] == s[k]);
        }
        assert(t[e] == s[e]);
        lemma_line_end_at(t, i, e);
        assert(t.subrange(i, e) =~= s.subrange(i, e));
        lemma_round_trip_from(s, u, p, e + 1);
        assert(records_from(t, i) =~= records_from(s, i).push((u, p)));
        assert(malformed_from(t, i) == malformed_from(s, i));
    }
}

/// Round trip of registration and reload: when the persisted form is empty
/// or ends with a line feed, appending the encoded line of a new record
/// makes a form that loads to the same records with exactly that one record
/// appended, and adds no malformed line. Usernames and passwords that hold
/// whitespace or a line feed are not representable in the persisted form
/// and are left out.
pub proof fn lemma_append_round_trip(content: Seq<u8>, u: Seq<u8>, p: Seq<u8>)
    requires
        content.len() == 0 || is_newline(content[content.len() - 1]),
        is_token(u),
        is_token(p),
    ensures
        records_of(content + encoded_record(u, p)) == records_of(content).push((u, p)),
        has_malformed_line(content + encoded_record(u, p)) == has_malformed_line(content),
{
    lemma_round_trip_from(content, u, p, 0);
}

/// Registering a username that no record holds and then verifying the same
/// username/password pair succeeds.
pub proof fn lemma_register_then_verify(s: Seq<(Seq<u8>, Seq<u8>)>, u: Seq<u8>, p: Seq<u8>)
    requires
        !has_user(s, u),
    ensures
        has_credential(s.push((u, p)), u, p),
{
    assert(s.push((u, p))[s.len() as int] == (u, p));
}

/// After a registration of a username that no record held, only that
/// registration's password verifies for it: a second registration of the
/// same username is rejected with the store unchanged, and any other
/// password is refused.
pub proof fn lemma_duplicate_keeps_first(
    s: Seq<(Seq<u8>, Seq<u8>)>,
    u: Seq<u8>,
    p1: Seq<u8>,
    p2: Seq<u8>,
)
    requires
        !has_user(s, u),
    ensures
        has_user(s.push((u, p1)), u),
        has_credential(s.push((u, p1)), u, p2) == (p1 == p2),
{
    let s2 = s.push((u, p1));
    assert(s2[s.len() as int] == (u, p1));
    if has_credential(s2, u, p2) {
        let i = choose|i: int| 0 <= i < s2.len() && (#[trigger] s2[i]).0 == u && s2[i].1 == p2;
        if i < s.len() {
            assert(s[i] == s2[i]);
            assert(false);
        }
    }
}

/// A pair for which no record holds both parts verifies false, even when
/// some record holds the username: a wrong password is refused, not an
/// error.
pub proof fn lemma_wrong_password(s: Seq<(Seq<u8>, Seq<u8>)>, u: Seq<u8>, p: Seq<u8>)
    requires
        forall|i: int| 0 <= i < s.len() ==> ((#[trigger] s[i]).0 == u ==> s[i].1 != p),
    ensures
        !has_credential(s, u, p),
{
}

/// Against an empty store every lookup fails: no username exists and no
/// pair verifies.
pub proof fn lemma_empty_store_verifies_nothing(s: Seq<(Seq<u8>, Seq<u8>)>, u: Seq<u8>, p: Seq<u8>)
    requires
        s.len() == 0,
    ensures
        !has_user(s, u),
        !has_credential(s, u, p),
{
}

} // verus!
