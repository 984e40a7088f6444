//! Saved connection profiles: the records kept in the key-value store, how
//! they are stamped on insert and update, and the order in which they are
//! listed.
use vstd::prelude::*;

use crate::text::{decimal_chars, decimal_of, string_of};

verus! {

/// A saved connection profile.
#[derive(Clone, Debug)]
pub struct SshConnection {
    pub id: Option<u64>,
    pub name: String,
    pub host: String,
    pub port: u16,
    pub username: Option<String>,
    pub password: Option<String>,
    pub created_at: Option<u64>,
    pub updated_at: Option<u64>,
}

/// A request on the saved profiles.
#[derive(Clone, Debug)]
pub enum DbOperation {
    Insert(SshConnection),
    Update(SshConnection),
    /// Remove the profile with this id.
    Delete(u64),
    SelectAll,
}

#[derive(Clone, Copy, Debug, PartialEq, Eq)]
pub enum StoreError {
    /// An update names no profile id.
    MissingId,
}

/// The two profiles agree on everything the user entered.
pub open spec fn same_profile(a: SshConnection, b: SshConnection) -> bool {
    &&& a.name == b.name
    &&& a.host == b.host
    &&& a.port == b.port
    &&& a.username == b.username
    &&& a.password == b.password
}

impl SshConnection {
    /// The profile as first stored: with its new id, created and updated now.
    pub fn stamped_for_insert(self, id: u64, now: u64) -> (r: SshConnection)
        ensures
            same_profile(r, self),
            r.id == Some(id),
            r.created_at == Some(now),
            r.updated_at == Some(now),
    {
        SshConnection { id: Some(id), created_at: Some(now), updated_at: Some(now), ..self }
    }

    /// The profile as stored again: updated now. A profile without an id
    /// cannot be updated.
    pub fn stamped_for_update(self, now: u64) -> (r: Result<SshConnection, StoreError>)
        ensures
            r is Err <==> self.id is None,
            r matches Ok(c) ==> same_profile(c, self) && c.id == self.id && c.created_at
                == self.created_at && c.updated_at == Some(now),
    {
        if self.id.is_none() {
            return Err(StoreError::MissingId);
        }
        Ok(SshConnection { updated_at: Some(now), ..self })
    }
}

/// The key under which a profile with this id is stored.
pub fn record_key(id: u64) -> (r: String)
    ensures
        r@ == decimal_of(id as nat),
{
    let digits = decimal_chars(id);
    string_of(digits.as_slice())
}

/// Creation times in listing order: later first, profiles without one last.
pub open spec fn listed_before(a: Option<u64>, b: Option<u64>) -> bool {
    match (a, b) {
        (_, None) => true,
        (None, Some(_)) => false,
        (Some(x), Some(y)) => x >= y,
    }
}

fn listed_before_exec(a: Option<u64>, b: Option<u64>) -> (r: bool)
    ensures
        r == listed_before(a, b),
{
    match (a, b) {
        (_, None) => true,
        (None, Some(_)) => false,
        (Some(x), Some(y)) => x >= y,
    }
}

pub open spec fn newest_first_sorted(s: Seq<SshConnection>) -> bool {
    forall|i: int, j: int|
        0 <= i < j < s.len() ==> listed_before(#[trigger] s[i].created_at, #[trigger] s[j].created_at)
}

/// The profiles of `s` created at time `k`, in their order in `s`.
pub open spec fn made_at(s: Seq<SshConnection>, k: Option<u64>) -> Seq<SshConnection>
    decreases s.len(),
{
    if s.len() == 0 {
        Seq::empty()
    } else {
        let prev = made_at(s.drop_last(), k);
        if s.last().created_at == k {
            prev.push(s.last())
        } else {
            prev
        }
    }
}

proof fn lemma_made_at_concat(a: Seq<SshConnection>, b: Seq<SshConnection>, k: Option<u64>)
    ensures
        made_at(a + b, k) == made_at(a, k) + made_at(b, k),
    decreases b.len(),
{
    if b.len() == 0 {
        assert(a + b =~= a);
        assert(made_at(a, k) + made_at(b, k) =~= made_at(a, k));
    } else {
        lemma_made_at_concat(a, b.drop_last(), k);
        assert((a + b).drop_last() =~= a + b.drop_last());
        assert((a + b).last() == b.last());
        if b.last().created_at == k {
            assert(made_at(a, k) + made_at(b.drop_last(), k).push(b.last()) =~= (made_at(a, k)
                + made_at(b.drop_last(), k)).push(b.last()));
        }
    }
}

proof fn lemma_made_at_none(s: Seq<SshConnection>, k: Option<u64>)
    requires
        forall|i: int| 0 <= i < s.len() ==> #[trigger] s[i].created_at != k,
    ensures
        made_at(s, k) == Seq::<SshConnection>::empty(),
    decreases s.len(),
{
    if s.len() > 0 {
        assert(forall|i: int| 0 <= i < s.len() - 1 ==> s.drop_last()[i] == s[i]);
        lemma_made_at_none(s.drop_last(), k);
        assert(s[s.len() - 1].created_at != k);
    }
}

proof fn lemma_made_at_single(x: SshConnection, k: Option<u64>)
    ensures
        made_at(seq![x], k) == if x.created_at == k {
            seq![x]
        } else {
            Seq::<SshConnection>::empty()
        },
{
    assert(seq![x].drop_last() =~= Seq::<SshConnection>::empty());
    assert(seq![x].last() == x);
    assert(made_at(Seq::<SshConnection>::empty(), k) == Seq::<SshConnection>::empty());
    assert(Seq::<SshConnection>::empty().push(x) =~= seq![x]);
}

/// The profiles ordered by creation time, most recent first, profiles
/// without a creation time last; profiles created at the same time keep
/// their relative order.
pub fn newest_first(profiles: Vec<SshConnection>) -> (r: Vec<SshConnection>)
    ensures
        r@.to_multiset() == profiles@.to_multiset(),
        newest_first_sorted(r@),
        forall|k: Option<u64>| #[trigger] made_at(r@, k) == made_at(profiles@, k),
{
    broadcast use vstd::seq_lib::group_to_multiset_ensures;

    let ghost orig = profiles@;
    let mut rest = profiles;
    let mut out: Vec<SshConnection> = Vec::new();
    assert forall|k: Option<u64>| #[trigger] made_at(orig, k) == made_at(out@, k) + made_at(rest@, k) by {
        assert(made_at(out@, k) + made_at(rest@, k) =~= made_at(rest@, k));
    }
    while rest.len() > 0
        invariant
            out@.to_multiset().add(rest@.to_multiset()) == orig.to_multiset(),
            newest_first_sorted(out@),
            forall|k: Option<u64>| #[trigger] made_at(orig, k) == made_at(out@, k) + made_at(rest@, k),
        decreases rest@.len(),
    {
        let ghost rest0 = rest@;
        let x = rest.remove(0);
        assert(rest@ =~= rest0.remove(0));
        proof {
            rest0.to_multiset_ensures();
            assert(rest0.len() > 0);
            assert(rest0.remove(0).to_multiset() =~= rest0.to_multiset().remove(rest0[0]));
            assert(rest0.contains(x));
            assert(rest0.to_multiset().count(x) > 0);
        }
        let key = x.created_at;
        let mut p: usize = 0;
        while p < out.len() && listed_before_exec(out[p].created_at, key)
            invariant
                p <= out@.len(),
                forall|k: int| 0 <= k < p ==> listed_before(#[trigger] out@[k].created_at, key),
            decreases out@.len() - p,
        {
            p = p + 1;
        }
        let ghost out0 = out@;
        out.insert(p, x);
        proof {
            let s1 = out@;
            s1.to_multiset_ensures();
            assert(s1.remove(p as int) =~= out0);
            assert(s1[p as int] == x);
            assert(s1.remove(p as int).to_multiset() =~= s1.to_multiset().remove(s1[p as int]));
            assert(s1.contains(x));
            assert(s1.to_multiset().count(x) > 0);
            assert(s1.to_multiset() =~= out0.to_multiset().insert(x));
            assert(s1.to_multiset().add(rest@.to_multiset()) =~= orig.to_multiset());
            assert(rest0 =~= seq![x] + rest@);
            assert(s1 =~= out0.take(p as int) + seq![x] + out0.skip(p as int));
            assert(out0 =~= out0.take(p as int) + out0.skip(p as int));
            assert forall|k: Option<u64>| #[trigger] made_at(orig, k) == made_at(s1, k) + made_at(
                rest@,
                k,
            ) by {
                let a = out0.take(p as int);
                let b = out0.skip(p as int);
                lemma_made_at_concat(seq![x], rest@, k);
                lemma_made_at_concat(a + seq![x], b, k);
                lemma_made_at_concat(a, seq![x], k);
                lemma_made_at_concat(a, b, k);
                lemma_made_at_single(x, k);
                if x.created_at == k {
                    assert forall|j: int| 0 <= j < b.len() implies #[trigger] b[j].created_at
                        != k by {
                        assert(b[j] == out0[p + j]);
                        assert(!listed_before(out0[p as int].created_at, key));
                        if j > 0 {
                            assert(listed_before(out0[p as int].created_at, out0[p + j].created_at));
                        }
                    }
                    lemma_made_at_none(b, k);
                    assert(made_at(b, k) + made_at(rest@, k) =~= made_at(rest@, k));
                    assert(made_at(s1, k) + made_at(rest@, k) =~= made_at(a, k) + (seq![x] + made_at(rest@, k)));
                    assert(made_at(out0, k) =~= made_at(a, k) + made_at(b, k));
                    assert(made_at(a, k) + made_at(b, k) =~= made_at(a, k));
                } else {
                    assert(made_at(seq![x], k) + made_at(rest@, k) =~= made_at(rest@, k));
                    assert(made_at(a, k) + made_at(seq![x], k) =~= made_at(a, k));
                }
            }
            assert forall|i: int, j: int| 0 <= i < j < out@.len() implies listed_before(
                #[trigger] out@[i].created_at,
                #[trigger] out@[j].created_at,
            ) by {
                if j < p {
                    assert(out@[i] == out0[i] && out@[j] == out0[j]);
                } else if j == p {
                    assert(out@[i] == out0[i]);
                } else if i == p {
                    assert(out@[j] == out0[j - 1]);
                    assert(!listed_before(out0[p as int].created_at, key));
                    if j - 1 > p {
                        assert(listed_before(out0[p as int].created_at, out0[j - 1].created_at));
                    }
                } else if i < p {
                    assert(out@[i] == out0[i] && out@[j] == out0[j - 1]);
                } else {
                    assert(out@[i] == out0[i - 1] && out@[j] == out0[j - 1]);
                }
            }
        }
    }
    out
}

#[verifier::external_type_specification]
#[verifier::external_body]
pub struct ExSystemTime(std::time::SystemTime);

#[verifier::external_type_specification]
#[verifier::external_body]
pub struct ExSystemTimeError(std::time::SystemTimeError);

/// Relies on `SystemTime::now`: the clock's current reading. Nothing is
/// promised of it.
pub assume_specification[ std::time::SystemTime::now ]() -> std::time::SystemTime;

/// Relies on `SystemTime::duration_since`: the time elapsed since `earlier`,
/// or an error where `earlier` is later. Nothing is promised of the value.
pub assume_specification[ std::time::SystemTime::duration_since ](
    t: &std::time::SystemTime,
    earlier: std::time::SystemTime,
) -> core::result::Result<core::time::Duration, std::time::SystemTimeError>;

/// Relies on `Duration::as_secs`: the whole seconds of a duration.
pub assume_specification[ core::time::Duration::as_secs ](d: &core::time::Duration) -> u64;

/// Relies on `std::time::UNIX_EPOCH`: the clock reading of 1970-01-01 00:00:00 UTC.
#[verifier::external_body]
fn unix_epoch() -> std::time::SystemTime {
    std::time::UNIX_EPOCH
}

/// Seconds since the Unix epoch by the system clock, or `None` where the
/// clock reads earlier than the epoch.
pub fn current_timestamp() -> Option<u64> {
    let now = std::time::SystemTime::now();
    match now.duration_since(unix_epoch()) {
        Ok(d) => Some(d.as_secs()),
        Err(_) => None,
    }
}

} // verus!
