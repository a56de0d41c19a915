//! Generic store primitives: every table is a sequence of records that carry
//! a provider-stable textual key, and all mutation goes through two
//! operations, insert-if-absent and upsert-by-key, shared by the entity
//! kinds.

use vstd::prelude::*;

verus! {

/// A record stored under a provider-stable textual key.
pub trait KeyedRecord: Sized {
    /// The key that identifies this record within its table.
    spec fn key(&self) -> Seq<char>;

    /// Compare this record's key with another record's key.
    fn key_eq(&self, other: &Self) -> (r: bool)
        ensures
            r == (self.key() == other.key()),
    ;
}

/// A record that additionally carries a monotonic notified flag.
pub trait EventRecord: KeyedRecord {
    /// Whether the event this record describes has already been delivered.
    spec fn is_notified(&self) -> bool;
}

/// True when some record in `s` carries the key `k`.
pub open spec fn has_key<T: KeyedRecord>(s: Seq<T>, k: Seq<char>) -> bool {
    exists|i: int| 0 <= i < s.len() && s[i].key() == k
}

/// The index of the record carrying `k`; unique whenever `unique_keys` holds.
pub open spec fn key_index<T: KeyedRecord>(s: Seq<T>, k: Seq<char>) -> int {
    choose|i: int| 0 <= i < s.len() && s[i].key() == k
}

/// Every key occurs at most once in `s`.
pub open spec fn unique_keys<T: KeyedRecord>(s: Seq<T>) -> bool {
    forall|i: int, j: int| 0 <= i < j < s.len() ==> s[i].key() != s[j].key()
}

/// Append `r` unless its key is already present; a duplicate key is a silent
/// no-op, never an error, and never touches the stored record.
pub open spec fn insert_if_absent<T: KeyedRecord>(s: Seq<T>, r: T) -> Seq<T> {
    if has_key(s, r.key()) {
        s
    } else {
        s.push(r)
    }
}

/// Replace the record carrying `r`'s key, or append `r` if the key is new.
pub open spec fn upsert_by_key<T: KeyedRecord>(s: Seq<T>, r: T) -> Seq<T> {
    if has_key(s, r.key()) {
        s.update(key_index(s, r.key()), r)
    } else {
        s.push(r)
    }
}

/// Every record of `pre` whose event was already notified still has, in
/// `post`, a record with the same key that is still notified: no operation
/// ever moves a record back to unnotified.
pub open spec fn notified_kept<T: EventRecord>(pre: Seq<T>, post: Seq<T>) -> bool {
    forall|i: int|
        0 <= i < pre.len() && #[trigger] pre[i].is_notified() ==> exists|j: int|
            0 <= j < post.len() && #[trigger] post[j].key() == pre[i].key()
                && post[j].is_notified()
}

/// Some record in `s` carries the key `k` and is already notified.
pub open spec fn has_notified_key<T: EventRecord>(s: Seq<T>, k: Seq<char>) -> bool {
    exists|j: int| 0 <= j < s.len() && #[trigger] s[j].key() == k && s[j].is_notified()
}

/// Find the index of the record whose key equals `probe`'s key.
pub fn find_by_key<T: KeyedRecord>(v: &Vec<T>, probe: &T) -> (r: Option<usize>)
    requires
        unique_keys(v@),
    ensures
        match r {
            Some(i) => 0 <= i < v@.len() && v@[i as int].key() == probe.key() && i as int
                == key_index(v@, probe.key()),
            None => !has_key(v@, probe.key()),
        },
{
    let n = v.len();
    let mut i: usize = 0;
    while i < n
        invariant
            n == v@.len(),
            i <= n,
            unique_keys(v@),
            forall|j: int| 0 <= j < i ==> v@[j].key() != probe.key(),
        decreases n - i,
    {
        if v[i].key_eq(probe) {
            proof {
                assert(has_key(v@, probe.key()));
                let ki = key_index(v@, probe.key());
                assert(0 <= ki < v@.len() && v@[ki].key() == probe.key());
                assert(ki == i as int);
            }
            return Some(i);
        }
        i += 1;
    }
    None
}

/// Insert `r` unless a record with its key is already stored.
pub fn vec_insert_if_absent<T: KeyedRecord>(v: &mut Vec<T>, r: T)
    requires
        unique_keys(old(v)@),
    ensures
        final(v)@ == insert_if_absent(old(v)@, r),
        unique_keys(final(v)@),
{
    match find_by_key(v, &r) {
        Some(_) => {},
        None => {
            v.push(r);
            proof {
                assert forall|i: int, j: int| 0 <= i < j < v@.len() implies v@[i].key()
                    != v@[j].key() by {
                    if j == v@.len() - 1 {
                        assert(!has_key(old(v)@, v@[j].key()));
                    }
                }
            }
        },
    }
}

/// Replace the record with `r`'s key by `r`, or append `r` if the key is new.
pub fn vec_upsert_by_key<T: KeyedRecord>(v: &mut Vec<T>, r: T)
    requires
        unique_keys(old(v)@),
    ensures
        final(v)@ == upsert_by_key(old(v)@, r),
        unique_keys(final(v)@),
{
    match find_by_key(v, &r) {
        Some(i) => {
            let ghost pre = v@;
            v[i] = r;
            proof {
                assert forall|a: int, b: int| 0 <= a < b < v@.len() implies v@[a].key()
                    != v@[b].key() by {
                    assert(pre[a].key() != pre[b].key());
                }
            }
        },
        None => {
            v.push(r);
            proof {
                assert forall|a: int, b: int| 0 <= a < b < v@.len() implies v@[a].key()
                    != v@[b].key() by {
                    if b == v@.len() - 1 {
                        assert(!has_key(old(v)@, v@[b].key()));
                    }
                }
            }
        },
    }
}

/// Dedup idempotence: a second insert-if-absent under an already-present key
/// leaves the table exactly as the first insert left it, whatever the second
/// record's remaining fields hold.
pub proof fn lemma_insert_if_absent_idempotent<T: KeyedRecord>(s: Seq<T>, a: T, b: T)
    requires
        a.key() == b.key(),
    ensures
        insert_if_absent(insert_if_absent(s, a), b) == insert_if_absent(s, a),
{
    let s1 = insert_if_absent(s, a);
    if !has_key(s, a.key()) {
        assert(s1 == s.push(a));
        assert(s1[s.len() as int].key() == b.key());
        assert(has_key(s1, b.key()));
    }
}

/// The notified flag stays monotonic across any chain of operations: if two
/// consecutive steps each keep notified records notified, so does their
/// composition.
pub proof fn lemma_notified_kept_trans<T: EventRecord>(a: Seq<T>, b: Seq<T>, c: Seq<T>)
    requires
        notified_kept(a, b),
        notified_kept(b, c),
    ensures
        notified_kept(a, c),
{
    assert forall|i: int| 0 <= i < a.len() && #[trigger] a[i].is_notified() implies exists|j: int|
        0 <= j < c.len() && #[trigger] c[j].key() == a[i].key() && c[j].is_notified() by {
        let j1 = choose|j: int| 0 <= j < b.len() && #[trigger] b[j].key() == a[i].key()
            && b[j].is_notified();
        assert(b[j1].is_notified());
        let j2 = choose|j: int| 0 <= j < c.len() && #[trigger] c[j].key() == b[j1].key()
            && c[j].is_notified();
        assert(c[j2].key() == a[i].key() && c[j2].is_notified());
    }
}

} // verus!
