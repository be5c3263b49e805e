//! The ledger of installed versions: an ordered list of records mapping a
//! version name to the directory its files were extracted to.
//!
//! The ledger preserves insertion order; a lookup returns the first match,
//! an update removes every old record of the name before appending the new
//! one, so a name that was ever updated has exactly one record.
use crate::text::is_token;
use crate::text::str_eq;
use vstd::prelude::*;

verus! {

/// One ledger record: a user-facing version name and the directory,
/// relative to `bin/`, holding that version's extracted files.
pub struct Entry {
    pub version: String,
    pub dir: String,
}

/// The mathematical value of an [`Entry`].
pub struct EntryV {
    pub version: Seq<char>,
    pub dir: Seq<char>,
}

impl View for Entry {
    type V = EntryV;

    open spec fn view(&self) -> EntryV {
        EntryV { version: self.version@, dir: self.dir@ }
    }
}

impl Entry {
    pub fn new(version: String, dir: String) -> (r: Entry)
        ensures
            r@ == (EntryV { version: version@, dir: dir@ }),
    {
        Entry { version, dir }
    }
}

impl Clone for Entry {
    fn clone(&self) -> (r: Self)
        ensures
            r == *self,
    {
        Entry { version: self.version.clone(), dir: self.dir.clone() }
    }
}

/// A record the store files can carry faithfully.
pub open spec fn wf_entry(e: EntryV) -> bool {
    is_token(e.version) && is_token(e.dir)
}

pub open spec fn wf_entries(es: Seq<EntryV>) -> bool {
    forall|i: int| 0 <= i < es.len() ==> wf_entry(#[trigger] es[i])
}

/// The mathematical value of a whole ledger.
pub open spec fn entries_view(es: Seq<Entry>) -> Seq<EntryV> {
    es.map_values(|e: Entry| e@)
}

/// The directory of the first record carrying `v`, if any.
pub open spec fn spec_find(es: Seq<EntryV>, v: Seq<char>) -> Option<Seq<char>>
    decreases es.len(),
{
    if es.len() == 0 {
        None
    } else if es[0].version == v {
        Some(es[0].dir)
    } else {
        spec_find(es.drop_first(), v)
    }
}

/// The ledger without any record carrying `v`; the order of the rest is kept.
pub open spec fn spec_remove(es: Seq<EntryV>, v: Seq<char>) -> Seq<EntryV>
    decreases es.len(),
{
    if es.len() == 0 {
        Seq::empty()
    } else if es[0].version == v {
        spec_remove(es.drop_first(), v)
    } else {
        seq![es[0]] + spec_remove(es.drop_first(), v)
    }
}

/// Replace semantics: every old record of `v` goes, the new one is appended.
pub open spec fn spec_upsert(es: Seq<EntryV>, v: Seq<char>, d: Seq<char>) -> Seq<EntryV> {
    spec_remove(es, v).push(EntryV { version: v, dir: d })
}

/// How many records carry `v`.
pub open spec fn spec_count(es: Seq<EntryV>, v: Seq<char>) -> nat
    decreases es.len(),
{
    if es.len() == 0 {
        0
    } else if es[0].version == v {
        1 + spec_count(es.drop_first(), v)
    } else {
        spec_count(es.drop_first(), v)
    }
}

/// The version names, in ledger order.
pub open spec fn spec_names(es: Seq<EntryV>) -> Seq<Seq<char>> {
    es.map_values(|e: EntryV| e.version)
}

/// Unfolds a lookup over a ledger split into head and tail.
proof fn lemma_find_head(e: EntryV, t: Seq<EntryV>, v: Seq<char>)
    ensures
        spec_find(seq![e] + t, v) == if e.version == v {
            Some(e.dir)
        } else {
            spec_find(t, v)
        },
{
    let s = seq![e] + t;
    assert(s[0] == e);
    assert(s.drop_first() =~= t);
}

/// Unfolds a removal over a ledger split into head and tail.
proof fn lemma_remove_head(e: EntryV, t: Seq<EntryV>, v: Seq<char>)
    ensures
        spec_remove(seq![e] + t, v) == if e.version == v {
            spec_remove(t, v)
        } else {
            seq![e] + spec_remove(t, v)
        },
{
    let s = seq![e] + t;
    assert(s[0] == e);
    assert(s.drop_first() =~= t);
}

/// Unfolds a count over a ledger split into head and tail.
proof fn lemma_count_head(e: EntryV, t: Seq<EntryV>, v: Seq<char>)
    ensures
        spec_count(seq![e] + t, v) == spec_count(t, v) + if e.version == v {
            1int
        } else {
            0int
        },
{
    let s = seq![e] + t;
    assert(s[0] == e);
    assert(s.drop_first() =~= t);
}

/// A lookup walks a concatenation left to right.
pub proof fn lemma_find_concat(a: Seq<EntryV>, b: Seq<EntryV>, v: Seq<char>)
    ensures
        spec_find(a + b, v) == if spec_find(a, v) is Some {
            spec_find(a, v)
        } else {
            spec_find(b, v)
        },
    decreases a.len(),
{
    if a.len() == 0 {
        assert(a + b =~= b);
    } else {
        assert(a =~= seq![a[0]] + a.drop_first());
        assert(a + b =~= seq![a[0]] + (a.drop_first() + b));
        lemma_find_head(a[0], a.drop_first() + b, v);
        lemma_find_head(a[0], a.drop_first(), v);
        lemma_find_concat(a.drop_first(), b, v);
    }
}

/// A count splits over a concatenation.
proof fn lemma_count_concat(a: Seq<EntryV>, b: Seq<EntryV>, v: Seq<char>)
    ensures
        spec_count(a + b, v) == spec_count(a, v) + spec_count(b, v),
    decreases a.len(),
{
    if a.len() == 0 {
        assert(a + b =~= b);
    } else {
        assert(a =~= seq![a[0]] + a.drop_first());
        assert(a + b =~= seq![a[0]] + (a.drop_first() + b));
        lemma_count_head(a[0], a.drop_first() + b, v);
        lemma_count_head(a[0], a.drop_first(), v);
        lemma_count_concat(a.drop_first(), b, v);
    }
}

/// After a removal, no record of the removed name is left: a lookup misses
/// and the count is zero.
pub proof fn lemma_remove_removes(es: Seq<EntryV>, v: Seq<char>)
    ensures
        spec_find(spec_remove(es, v), v) is None,
        spec_count(spec_remove(es, v), v) == 0,
    decreases es.len(),
{
    if es.len() > 0 {
        lemma_remove_removes(es.drop_first(), v);
        if es[0].version != v {
            lemma_find_head(es[0], spec_remove(es.drop_first(), v), v);
            lemma_count_head(es[0], spec_remove(es.drop_first(), v), v);
        }
    }
}

/// Removing a name leaves every other name's lookup and count unchanged.
pub proof fn lemma_remove_other(es: Seq<EntryV>, v: Seq<char>, w: Seq<char>)
    requires
        v != w,
    ensures
        spec_find(spec_remove(es, v), w) == spec_find(es, w),
        spec_count(spec_remove(es, v), w) == spec_count(es, w),
    decreases es.len(),
{
    if es.len() > 0 {
        lemma_remove_other(es.drop_first(), v, w);
        if es[0].version != v {
            lemma_find_head(es[0], spec_remove(es.drop_first(), v), w);
            lemma_count_head(es[0], spec_remove(es.drop_first(), v), w);
            lemma_find_head(es[0], es.drop_first(), w);
            lemma_count_head(es[0], es.drop_first(), w);
            assert(es =~= seq![es[0]] + es.drop_first());
        }
    }
}

/// A name counted zero times appears at no position.
pub proof fn lemma_count_zero(es: Seq<EntryV>, v: Seq<char>)
    requires
        spec_count(es, v) == 0,
    ensures
        forall|i: int| 0 <= i < es.len() ==> (#[trigger] es[i]).version != v,
    decreases es.len(),
{
    if es.len() > 0 {
        lemma_count_zero(es.drop_first(), v);
        assert forall|i: int| 0 <= i < es.len() implies (#[trigger] es[i]).version != v by {
            if i > 0 {
                assert(es[i] == es.drop_first()[i - 1]);
            }
        }
    }
}

/// Removing a name the ledger does not hold changes nothing.
pub proof fn lemma_remove_absent_noop(es: Seq<EntryV>, v: Seq<char>)
    requires
        spec_find(es, v) is None,
    ensures
        spec_remove(es, v) == es,
    decreases es.len(),
{
    if es.len() == 0 {
        assert(spec_remove(es, v) =~= es);
    } else {
        lemma_remove_absent_noop(es.drop_first(), v);
        assert(spec_remove(es, v) =~= es);
    }
}

/// Removal is idempotent: a second removal of the same name changes nothing.
pub proof fn lemma_remove_idempotent(es: Seq<EntryV>, v: Seq<char>)
    ensures
        spec_remove(spec_remove(es, v), v) == spec_remove(es, v),
    decreases es.len(),
{
    if es.len() > 0 {
        lemma_remove_idempotent(es.drop_first(), v);
        if es[0].version != v {
            lemma_remove_head(es[0], spec_remove(es.drop_first(), v), v);
        }
    }
}

/// After an update, the name has exactly one record, and a lookup returns
/// the directory just written.
pub proof fn lemma_upsert_unique(es: Seq<EntryV>, v: Seq<char>, d: Seq<char>)
    ensures
        spec_find(spec_upsert(es, v, d), v) == Some(d),
        spec_count(spec_upsert(es, v, d), v) == 1,
    decreases es.len(),
{
    let e = EntryV { version: v, dir: d };
    let removed = spec_remove(es, v);
    assert(spec_upsert(es, v, d) =~= removed + seq![e]);
    lemma_remove_removes(es, v);
    lemma_find_concat(removed, seq![e], v);
    lemma_count_concat(removed, seq![e], v);
    assert(spec_find(seq![e], v) == Some(d)) by {
        assert(seq![e][0] == e);
        assert(seq![e].drop_first() =~= Seq::<EntryV>::empty());
    }
    assert(spec_count(seq![e], v) == 1) by {
        assert(seq![e][0] == e);
        assert(seq![e].drop_first() =~= Seq::<EntryV>::empty());
        assert(spec_count(Seq::<EntryV>::empty(), v) == 0);
    }
}

/// An update leaves every other name's lookup unchanged.
pub proof fn lemma_upsert_other(es: Seq<EntryV>, v: Seq<char>, d: Seq<char>, w: Seq<char>)
    requires
        v != w,
    ensures
        spec_find(spec_upsert(es, v, d), w) == spec_find(es, w),
{
    let e = EntryV { version: v, dir: d };
    let removed = spec_remove(es, v);
    assert(spec_upsert(es, v, d) =~= removed + seq![e]);
    lemma_remove_other(es, v, w);
    lemma_find_concat(removed, seq![e], w);
    assert(spec_find(seq![e], w) is None) by {
        assert(seq![e][0] == e);
        assert(seq![e].drop_first() =~= Seq::<EntryV>::empty());
        assert(spec_find(Seq::<EntryV>::empty(), w) is None);
    }
}

/// Appending a record leaves every name that already hits unchanged.
pub proof fn lemma_find_push(es: Seq<EntryV>, e: EntryV, w: Seq<char>)
    requires
        spec_find(es, w) is Some,
    ensures
        spec_find(es.push(e), w) == spec_find(es, w),
{
    assert(es.push(e) =~= es + seq![e]);
    lemma_find_concat(es, seq![e], w);
}

/// Appending a record for an absent name makes that name hit it.
pub proof fn lemma_find_push_new(es: Seq<EntryV>, e: EntryV)
    requires
        spec_find(es, e.version) is None,
    ensures
        spec_find(es.push(e), e.version) == Some(e.dir),
{
    assert(es.push(e) =~= es + seq![e]);
    lemma_find_concat(es, seq![e], e.version);
    assert(spec_find(seq![e], e.version) == Some(e.dir)) by {
        assert(seq![e][0] == e);
    }
}

/// Appending a well-formed record keeps the ledger well formed.
pub proof fn lemma_wf_push(es: Seq<EntryV>, e: EntryV)
    requires
        wf_entries(es),
        wf_entry(e),
    ensures
        wf_entries(es.push(e)),
{
    assert forall|i: int| 0 <= i < es.push(e).len() implies wf_entry(#[trigger] es.push(e)[i]) by {
        if i < es.len() {
            assert(es.push(e)[i] == es[i]);
        } else {
            assert(es.push(e)[i] == e);
        }
    }
}

/// A removal keeps the ledger well formed.
pub proof fn lemma_remove_wf(es: Seq<EntryV>, v: Seq<char>)
    requires
        wf_entries(es),
    ensures
        wf_entries(spec_remove(es, v)),
    decreases es.len(),
{
    if es.len() > 0 {
        assert(wf_entries(es.drop_first())) by {
            assert(forall|i: int|
                0 <= i < es.drop_first().len() ==> #[trigger] es.drop_first()[i] == es[i + 1]);
        }
        lemma_remove_wf(es.drop_first(), v);
        if es[0].version != v {
            let r = seq![es[0]] + spec_remove(es.drop_first(), v);
            assert forall|i: int| 0 <= i < r.len() implies wf_entry(#[trigger] r[i]) by {
                if i == 0 {
                    assert(r[0] == es[0]);
                } else {
                    assert(r[i] == spec_remove(es.drop_first(), v)[i - 1]);
                }
            }
        }
    }
}

/// A hit in a well-formed ledger means the name searched for and the
/// directory found are both tokens.
pub proof fn lemma_find_wf(es: Seq<EntryV>, v: Seq<char>)
    requires
        wf_entries(es),
        spec_find(es, v) is Some,
    ensures
        is_token(v),
        (spec_find(es, v) matches Some(d) && is_token(d)),
    decreases es.len(),
{
    if es[0].version == v {
        assert(wf_entry(es[0]));
    } else {
        assert(wf_entries(es.drop_first())) by {
            assert(forall|i: int|
                0 <= i < es.drop_first().len() ==> #[trigger] es.drop_first()[i] == es[i + 1]);
        }
        lemma_find_wf(es.drop_first(), v);
    }
}

/// A new record appends its name to the listing: the names already there
/// keep their order, and the new one comes last.
pub proof fn lemma_names_push(es: Seq<EntryV>, e: EntryV)
    ensures
        spec_names(es.push(e)) == spec_names(es).push(e.version),
{
    assert(spec_names(es.push(e)) =~= spec_names(es).push(e.version));
}

/// First-match lookup over a ledger held in memory.
pub fn find_in(entries: &Vec<Entry>, version: &str) -> (r: Option<String>)
    ensures
        r matches Some(d) ==> spec_find(entries_view(entries@), version@) == Some(d@),
        r is None ==> spec_find(entries_view(entries@), version@) is None,
{
    let ghost ev = entries_view(entries@);
    let n = entries.len();
    let mut i: usize = 0;
    proof {
        assert(ev.skip(0) =~= ev);
    }
    while i < n
        invariant
            0 <= i <= n,
            n == entries@.len(),
            ev == entries_view(entries@),
            ev.len() == n,
            spec_find(ev, version@) == spec_find(ev.skip(i as int), version@),
        decreases n - i,
    {
        proof {
            assert(ev.skip(i as int).len() > 0);
            assert(ev.skip(i as int)[0] == ev[i as int]);
            assert(ev[i as int] == entries@[i as int]@);
        }
        if str_eq(entries[i].version.as_str(), version) {
            let d = entries[i].dir.clone();
            return Some(d);
        }
        proof {
            assert(ev.skip(i as int).drop_first() =~= ev.skip(i as int + 1));
        }
        i += 1;
    }
    proof {
        assert(ev.skip(n as int) =~= Seq::<EntryV>::empty());
    }
    None
}

/// The ledger without any record of `version`, order kept.
pub fn removed(entries: &Vec<Entry>, version: &str) -> (out: Vec<Entry>)
    ensures
        entries_view(out@) == spec_remove(entries_view(entries@), version@),
{
    let ghost ev = entries_view(entries@);
    let n = entries.len();
    let mut out: Vec<Entry> = Vec::new();
    let mut i: usize = 0;
    proof {
        assert(ev.skip(0) =~= ev);
        assert(entries_view(out@) =~= Seq::<EntryV>::empty());
    }
    while i < n
        invariant
            0 <= i <= n,
            n == entries@.len(),
            ev == entries_view(entries@),
            ev.len() == n,
            spec_remove(ev, version@) == entries_view(out@) + spec_remove(
                ev.skip(i as int),
                version@,
            ),
        decreases n - i,
    {
        proof {
            assert(ev.skip(i as int).len() > 0);
            assert(ev.skip(i as int)[0] == ev[i as int]);
            assert(ev[i as int] == entries@[i as int]@);
            assert(ev.skip(i as int).drop_first() =~= ev.skip(i as int + 1));
        }
        if !str_eq(entries[i].version.as_str(), version) {
            let ghost old_out = out@;
            out.push(entries[i].clone());
            proof {
                assert(entries_view(out@) =~= entries_view(old_out) + seq![ev[i as int]]);
                assert(entries_view(old_out) + (seq![ev[i as int]] + spec_remove(
                    ev.skip(i as int + 1),
                    version@,
                )) =~= (entries_view(old_out) + seq![ev[i as int]]) + spec_remove(
                    ev.skip(i as int + 1),
                    version@,
                ));
            }
        }
        i += 1;
    }
    proof {
        assert(ev.skip(n as int) =~= Seq::<EntryV>::empty());
        assert(entries_view(out@) + Seq::<EntryV>::empty() =~= entries_view(out@));
    }
    out
}

/// How many records of `version` the ledger holds.
pub fn count_in(entries: &Vec<Entry>, version: &str) -> (r: usize)
    ensures
        r == spec_count(entries_view(entries@), version@),
{
    let ghost ev = entries_view(entries@);
    let n = entries.len();
    let mut c: usize = 0;
    let mut i: usize = 0;
    proof {
        assert(ev.skip(0) =~= ev);
    }
    while i < n
        invariant
            0 <= i <= n,
            n == entries@.len(),
            ev == entries_view(entries@),
            ev.len() == n,
            c <= i,
            spec_count(ev, version@) == c + spec_count(ev.skip(i as int), version@),
        decreases n - i,
    {
        proof {
            assert(ev.skip(i as int).len() > 0);
            assert(ev.skip(i as int)[0] == ev[i as int]);
            assert(ev[i as int] == entries@[i as int]@);
            assert(ev.skip(i as int).drop_first() =~= ev.skip(i as int + 1));
        }
        if str_eq(entries[i].version.as_str(), version) {
            c += 1;
        }
        i += 1;
    }
    proof {
        assert(ev.skip(n as int) =~= Seq::<EntryV>::empty());
    }
    c
}

} // verus!
