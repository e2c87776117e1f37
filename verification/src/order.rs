//! The order metadata keys are kept in: by their UTF-8 bytes, compared one
//! byte at a time, a shorter key before a longer one that starts with it.
//! A header holds its entries sorted this way, each key once, so going
//! through them is going through a map from key to value in key order.
use vstd::prelude::*;
use vstd::utf8::*;

use crate::reader::metadata_view;
use crate::value::{Value, ValueModel};

verus! {

broadcast use vstd::seq_lib::group_to_multiset_ensures;

/// Whether `a` comes before `b`, byte by byte.
pub open spec fn bytes_lt(a: Seq<u8>, b: Seq<u8>) -> bool
    decreases a.len(),
{
    if a.len() == 0 {
        b.len() > 0
    } else if b.len() == 0 {
        false
    } else if a[0] != b[0] {
        a[0] < b[0]
    } else {
        bytes_lt(a.drop_first(), b.drop_first())
    }
}

/// Whether key `a` comes before key `b`: by their UTF-8 bytes.
pub open spec fn key_lt(a: Seq<char>, b: Seq<char>) -> bool {
    bytes_lt(encode_utf8(a), encode_utf8(b))
}

/// Each entry's key comes before the next one's: in key order, no key twice.
pub open spec fn sorted_by_key(md: Seq<(Seq<char>, ValueModel)>) -> bool {
    forall|i: int, j: int| 0 <= i < j < md.len() ==> key_lt(#[trigger] md[i].0, #[trigger] md[j].0)
}

/// `e` put into `s` before the first entry whose key comes after its own.
pub open spec fn insert_by_key(s: Seq<(Seq<char>, ValueModel)>, e: (Seq<char>, ValueModel)) -> Seq<
    (Seq<char>, ValueModel),
>
    decreases s.len(),
{
    if s.len() == 0 {
        seq![e]
    } else if key_lt(e.0, s[0].0) {
        seq![e] + s
    } else {
        seq![s[0]] + insert_by_key(s.drop_first(), e)
    }
}

/// The entries in key order.
pub open spec fn by_key(md: Seq<(Seq<char>, ValueModel)>) -> Seq<(Seq<char>, ValueModel)>
    decreases md.len(),
{
    if md.len() == 0 {
        md
    } else {
        insert_by_key(by_key(md.drop_first()), md[0])
    }
}

proof fn lemma_bytes_lt_irreflexive(a: Seq<u8>)
    ensures
        !bytes_lt(a, a),
    decreases a.len(),
{
    if a.len() > 0 {
        lemma_bytes_lt_irreflexive(a.drop_first());
    }
}

proof fn lemma_bytes_lt_transitive(a: Seq<u8>, b: Seq<u8>, c: Seq<u8>)
    requires
        bytes_lt(a, b),
        bytes_lt(b, c),
    ensures
        bytes_lt(a, c),
    decreases a.len(),
{
    if a.len() > 0 && b.len() > 0 && c.len() > 0 && a[0] == b[0] && b[0] == c[0] {
        lemma_bytes_lt_transitive(a.drop_first(), b.drop_first(), c.drop_first());
    }
}

proof fn lemma_bytes_lt_total(a: Seq<u8>, b: Seq<u8>)
    requires
        a != b,
    ensures
        bytes_lt(a, b) || bytes_lt(b, a),
    decreases a.len(),
{
    if a.len() == 0 && b.len() == 0 {
        assert(a =~= b);
    } else if a.len() > 0 && b.len() > 0 && a[0] == b[0] {
        if a.drop_first() == b.drop_first() {
            assert(a =~= seq![a[0]] + a.drop_first());
            assert(b =~= seq![b[0]] + b.drop_first());
        } else {
            lemma_bytes_lt_total(a.drop_first(), b.drop_first());
        }
    }
}

/// No key comes before itself.
pub proof fn lemma_key_lt_irreflexive(a: Seq<char>)
    ensures
        !key_lt(a, a),
{
    lemma_bytes_lt_irreflexive(encode_utf8(a));
}

/// A key before a key before a third is before the third.
pub proof fn lemma_key_lt_transitive(a: Seq<char>, b: Seq<char>, c: Seq<char>)
    requires
        key_lt(a, b),
        key_lt(b, c),
    ensures
        key_lt(a, c),
{
    lemma_bytes_lt_transitive(encode_utf8(a), encode_utf8(b), encode_utf8(c));
}

/// Of two different keys, one comes before the other.
pub proof fn lemma_key_lt_total(a: Seq<char>, b: Seq<char>)
    requires
        a != b,
    ensures
        key_lt(a, b) || key_lt(b, a),
{
    encode_utf8_decode_utf8(a);
    encode_utf8_decode_utf8(b);
    lemma_bytes_lt_total(encode_utf8(a), encode_utf8(b));
}

/// Where `i` is the first place whose key comes after `e`'s, inserting by
/// key puts `e` at `i`.
proof fn lemma_insert_at(s: Seq<(Seq<char>, ValueModel)>, e: (Seq<char>, ValueModel), i: int)
    requires
        0 <= i <= s.len(),
        forall|j: int| 0 <= j < i ==> !key_lt(e.0, #[trigger] s[j].0),
        i < s.len() ==> key_lt(e.0, s[i].0),
    ensures
        insert_by_key(s, e) == s.insert(i, e),
    decreases s.len(),
{
    if s.len() == 0 {
        assert(s.insert(i, e) =~= seq![e]);
    } else if i == 0 {
        assert(s.insert(0, e) =~= seq![e] + s);
    } else {
        let t = s.drop_first();
        assert forall|j: int| 0 <= j < i - 1 implies !key_lt(e.0, #[trigger] t[j].0) by {
            assert(t[j] == s[j + 1]);
        }
        lemma_insert_at(t, e, i - 1);
        assert(seq![s[0]] + t.insert(i - 1, e) =~= s.insert(i, e));
    }
}

/// Inserting by key puts `e` somewhere: at the first place whose key comes
/// after its own.
proof fn lemma_insert_place(s: Seq<(Seq<char>, ValueModel)>, e: (Seq<char>, ValueModel)) -> (i: int)
    ensures
        0 <= i <= s.len(),
        forall|j: int| 0 <= j < i ==> !key_lt(e.0, #[trigger] s[j].0),
        i < s.len() ==> key_lt(e.0, s[i].0),
        insert_by_key(s, e) == s.insert(i, e),
    decreases s.len(),
{
    if s.len() == 0 || key_lt(e.0, s[0].0) {
        lemma_insert_at(s, e, 0);
        0
    } else {
        let t = s.drop_first();
        let k = lemma_insert_place(t, e);
        assert forall|j: int| 0 <= j < k + 1 implies !key_lt(e.0, #[trigger] s[j].0) by {
            if j > 0 {
                assert(s[j] == t[j - 1]);
            }
        }
        if k < t.len() {
            assert(s[k + 1] == t[k]);
        }
        lemma_insert_at(s, e, k + 1);
        k + 1
    }
}

/// Inserting an entry whose key is not there yet into entries in key order
/// keeps them in key order.
proof fn lemma_insert_sorted(s: Seq<(Seq<char>, ValueModel)>, e: (Seq<char>, ValueModel))
    requires
        sorted_by_key(s),
        forall|j: int| 0 <= j < s.len() ==> (#[trigger] s[j]).0 != e.0,
    ensures
        sorted_by_key(insert_by_key(s, e)),
{
    let i = lemma_insert_place(s, e);
    let r = s.insert(i, e);
    assert forall|a: int, b: int| 0 <= a < b < r.len() implies key_lt(
        #[trigger] r[a].0,
        #[trigger] r[b].0,
    ) by {
        if a < i && b < i {
            assert(r[a] == s[a] && r[b] == s[b]);
        } else if a < i && b == i {
            assert(r[a] == s[a]);
            lemma_key_lt_total(s[a].0, e.0);
        } else if a < i {
            assert(r[a] == s[a] && r[b] == s[b - 1]);
        } else if a == i {
            assert(r[b] == s[b - 1]);
            if b - 1 > i {
                lemma_key_lt_transitive(e.0, s[i].0, s[b - 1].0);
            }
        } else {
            assert(r[a] == s[a - 1] && r[b] == s[b - 1]);
        }
    }
}

/// Putting entries in key order keeps how many there are and which they are.
pub proof fn lemma_by_key_entries(md: Seq<(Seq<char>, ValueModel)>)
    ensures
        by_key(md).to_multiset() == md.to_multiset(),
        by_key(md).len() == md.len(),
    decreases md.len(),
{
    if md.len() > 0 {
        let rest = md.drop_first();
        lemma_by_key_entries(rest);
        let i = lemma_insert_place(by_key(rest), md[0]);
        assert(md =~= rest.insert(0, md[0]));
    }
}

/// Entries with different keys, put in key order, are in key order.
proof fn lemma_by_key_sorted(md: Seq<(Seq<char>, ValueModel)>)
    requires
        forall|i: int, j: int| 0 <= i < j < md.len() ==> #[trigger] md[i].0 != #[trigger] md[j].0,
    ensures
        sorted_by_key(by_key(md)),
    decreases md.len(),
{
    if md.len() > 0 {
        let rest = md.drop_first();
        assert forall|i: int, j: int| 0 <= i < j < rest.len() implies #[trigger] rest[i].0
            != #[trigger] rest[j].0 by {
            assert(rest[i] == md[i + 1] && rest[j] == md[j + 1]);
        }
        lemma_by_key_sorted(rest);
        lemma_by_key_entries(rest);
        let s = by_key(rest);
        assert forall|j: int| 0 <= j < s.len() implies (#[trigger] s[j]).0 != md[0].0 by {
            assert(s.to_multiset().count(s[j]) > 0);
            assert(rest.contains(s[j]));
            let k = choose|k: int| 0 <= k < rest.len() && rest[k] == s[j];
            assert(md[k + 1] == rest[k]);
        }
        lemma_insert_sorted(s, md[0]);
    }
}

/// The entries a header hands out are the file's entries in key order: as
/// many as the file has, the same ones, and each key before the next, as a
/// map keyed by strings goes through them.
pub proof fn law_metadata_in_key_order(md: Seq<(Seq<char>, ValueModel)>)
    requires
        forall|i: int, j: int| 0 <= i < j < md.len() ==> #[trigger] md[i].0 != #[trigger] md[j].0,
    ensures
        sorted_by_key(by_key(md)),
        by_key(md).len() == md.len(),
        by_key(md).to_multiset() == md.to_multiset(),
{
    lemma_by_key_sorted(md);
    lemma_by_key_entries(md);
}

/// Entries already in key order stay as they are.
pub proof fn law_sorted_is_kept(md: Seq<(Seq<char>, ValueModel)>)
    requires
        sorted_by_key(md),
    ensures
        by_key(md) == md,
    decreases md.len(),
{
    if md.len() > 0 {
        let rest = md.drop_first();
        assert forall|i: int, j: int| 0 <= i < j < rest.len() implies key_lt(
            #[trigger] rest[i].0,
            #[trigger] rest[j].0,
        ) by {
            assert(rest[i] == md[i + 1] && rest[j] == md[j + 1]);
        }
        law_sorted_is_kept(rest);
        if rest.len() > 0 {
            assert(rest[0] == md[1]);
        }
        assert(seq![md[0]] + rest =~= md);
    }
}

/// Entries in key order have different keys.
pub proof fn lemma_sorted_keys_differ(md: Seq<(Seq<char>, ValueModel)>)
    requires
        sorted_by_key(md),
    ensures
        forall|i: int, j: int| 0 <= i < j < md.len() ==> #[trigger] md[i].0 != #[trigger] md[j].0,
{
    assert forall|i: int, j: int| 0 <= i < j < md.len() implies #[trigger] md[i].0
        != #[trigger] md[j].0 by {
        lemma_key_lt_irreflexive(md[i].0);
    }
}

/// Whether key `a` comes before key `b`.
pub fn key_less(a: &str, b: &str) -> (r: bool)
    ensures
        r == key_lt(a@, b@),
{
    let x = a.as_bytes();
    let y = b.as_bytes();
    let mut i: usize = 0;
    assert(x@.skip(0) =~= x@ && y@.skip(0) =~= y@);
    while i < x.len() && i < y.len()
        invariant
            i <= x@.len(),
            i <= y@.len(),
            x@ == encode_utf8(a@),
            y@ == encode_utf8(b@),
            bytes_lt(x@, y@) == bytes_lt(x@.skip(i as int), y@.skip(i as int)),
        decreases x.len() - i,
    {
        assert(x@.skip(i as int)[0] == x@[i as int] && y@.skip(i as int)[0] == y@[i as int]);
        if x[i] != y[i] {
            return x[i] < y[i];
        }
        assert(x@.skip(i as int).drop_first() =~= x@.skip(i + 1));
        assert(y@.skip(i as int).drop_first() =~= y@.skip(i + 1));
        i += 1;
    }
    x.len() < y.len()
}

/// The entries in key order.
pub fn sort_by_key(md: Vec<(String, Value)>) -> (r: Vec<(String, Value)>)
    ensures
        metadata_view(r@) == by_key(metadata_view(md@)),
{
    let ghost all = metadata_view(md@);
    let mut md = md;
    let mut out: Vec<(String, Value)> = Vec::new();
    assert(all.skip(all.len() as int) =~= Seq::<(Seq<char>, ValueModel)>::empty());
    assert(metadata_view(out@) =~= Seq::<(Seq<char>, ValueModel)>::empty());
    while md.len() > 0
        invariant
            md@.len() <= all.len(),
            metadata_view(md@) == all.take(md@.len() as int),
            metadata_view(out@) == by_key(all.skip(md@.len() as int)),
        decreases md.len(),
    {
        let ghost before = md@;
        let e = match md.pop() {
            Some(e) => e,
            None => return out,
        };
        let k = md.len();
        proof {
            assert(metadata_view(md@) =~= metadata_view(before).take(k as int));
            assert(all.take(k as int) =~= all.take((k + 1) as int).take(k as int));
            assert(e@ == metadata_view(before)[k as int]);
            assert(all.skip(k as int).drop_first() =~= all.skip(k + 1));
            assert(all.skip(k as int)[0] == all[k as int]);
        }
        let ghost s = metadata_view(out@);
        let mut i: usize = 0;
        while i < out.len() && !key_less(e.0.as_str(), out[i].0.as_str())
            invariant
                i <= out@.len(),
                s == metadata_view(out@),
                forall|j: int| 0 <= j < i ==> !key_lt(e@.0, #[trigger] s[j].0),
            decreases out.len() - i,
        {
            i += 1;
        }
        proof {
            lemma_insert_at(s, e@, i as int);
        }
        out.insert(i, e);
        proof {
            assert(metadata_view(out@) =~= s.insert(i as int, e@));
        }
    }
    proof {
        assert(all.skip(0) =~= all);
    }
    out
}

} // verus!
