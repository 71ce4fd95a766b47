//! The fingerprint of a set of files: FNV-1a over their paths and contents.
use vstd::prelude::*;
use crate::text;

verus! {

/// Where the fingerprint begins.
pub const OFFSET: u64 = 0xcbf2_9ce4_8422_2325;

/// What each step multiplies by.
pub const PRIME: u64 = 0x100_0000_01B3;

/// A fingerprint with one more byte.
pub open spec fn stepped(h: u64, b: u8) -> u64 {
    (h ^ (b as u64)).wrapping_mul(PRIME)
}

/// A fingerprint with more bytes.
pub open spec fn hashed(h: u64, bytes: Seq<u8>) -> u64
    decreases bytes.len(),
{
    if bytes.len() == 0 {
        h
    } else {
        stepped(hashed(h, bytes.drop_last()), bytes.last())
    }
}

/// What a file adds: its path, a zero and its contents.
pub open spec fn record(path: Seq<char>, contents: Seq<u8>) -> Seq<u8> {
    vstd::utf8::encode_utf8(path).push(0) + contents
}

/// What the files before `n` add, in their order.
pub open spec fn records(files: Seq<(String, Vec<u8>)>, n: int) -> Seq<u8>
    decreases n,
{
    if n <= 0 {
        Seq::empty()
    } else {
        records(files, n - 1) + record(files[n - 1].0@, files[n - 1].1@)
    }
}

/// Files in the order of their paths.
pub open spec fn by_path(files: Seq<(String, Vec<u8>)>) -> bool {
    forall|i: int, j: int|
        0 <= i < j < files.len() ==> !text::before((#[trigger] files[j]).0@, (#[trigger] files[i]).0@)
}

proof fn lemma_hashed(h: u64, a: Seq<u8>, b: Seq<u8>)
    ensures
        hashed(h, a + b) == hashed(hashed(h, a), b),
    decreases b.len(),
{
    if b.len() == 0 {
        assert(a + b =~= a);
    } else {
        lemma_hashed(h, a, b.drop_last());
        assert((a + b).drop_last() =~= a + b.drop_last());
        assert((a + b).last() == b.last());
    }
}

/// Takes up bytes.
fn take_up(h: u64, bytes: &[u8]) -> (r: u64)
    ensures
        r == hashed(h, bytes@),
{
    let mut out: u64 = h;
    let mut i: usize = 0;
    assert(bytes@.take(0) =~= Seq::<u8>::empty());
    while i < bytes.len()
        invariant
            i <= bytes@.len(),
            out == hashed(h, bytes@.take(i as int)),
        decreases bytes@.len() - i,
    {
        out = (out ^ (bytes[i] as u64)).wrapping_mul(PRIME);
        proof {
            assert(bytes@.take(i + 1).drop_last() =~= bytes@.take(i as int));
        }
        i = i + 1;
    }
    assert(bytes@.take(i as int) =~= bytes@);
    out
}

/// Where a file belongs among files in the order of their paths: behind those whose
/// paths do not come after its own.
fn place_for(files: &Vec<(String, Vec<u8>)>, path: &str) -> (r: usize)
    requires
        by_path(files@),
    ensures
        r <= files@.len(),
        forall|k: int| 0 <= k < r ==> !text::before(path@, (#[trigger] files@[k]).0@),
        forall|k: int| r <= k < files@.len() ==> text::before(path@, (#[trigger] files@[k]).0@),
{
    let mut n: usize = files.len();
    while n > 0
        invariant
            n <= files@.len(),
            by_path(files@),
            forall|k: int| n <= k < files@.len() ==> text::before(path@, (#[trigger] files@[k]).0@),
        decreases n,
    {
        if !text::is_before(path, files[n - 1].0.as_str()) {
            proof {
                assert forall|k: int| 0 <= k < n implies !text::before(
                    path@,
                    (#[trigger] files@[k]).0@,
                ) by {
                    if text::before(path@, files@[k].0@) && k < n - 1 {
                        text::law_before_is_total(files@[k].0@, files@[n - 1].0@);
                        assert(!text::before(files@[n - 1].0@, files@[k].0@));
                        if files@[k].0@ != files@[n - 1].0@ {
                            text::law_before_is_transitive(
                                path@,
                                files@[k].0@,
                                files@[n - 1].0@,
                            );
                        }
                    }
                }
            }
            return n;
        }
        n = n - 1;
    }
    0
}

/// Puts files in the order of their paths.
pub fn sorted(files: Vec<(String, Vec<u8>)>) -> (r: Vec<(String, Vec<u8>)>)
    ensures
        by_path(r@),
        r@.to_multiset() == files@.to_multiset(),
{
    let ghost all = files@;
    let mut rest: Vec<(String, Vec<u8>)> = files;
    let mut taken: Vec<(String, Vec<u8>)> = Vec::new();
    let mut out: Vec<(String, Vec<u8>)> = Vec::new();
    proof {
        broadcast use vstd::seq_lib::group_to_multiset_ensures;
        assert(all.take(all.len() as int) =~= all);
        assert(all.skip(all.len() as int) =~= Seq::empty());
    }
    while rest.len() > 0
        invariant
            rest@.len() + taken@.len() == all.len(),
            rest@ == all.take(rest@.len() as int),
            forall|k: int| 0 <= k < taken@.len() ==> #[trigger] taken@[k] == all[all.len() - 1 - k],
        decreases rest@.len(),
    {
        let ghost before = rest@;
        match rest.pop() {
            Some(f) => {
                taken.push(f);
            },
            None => {},
        }
        assert(rest@ =~= all.take(before.len() - 1));
    }
    let ghost mut done: int = 0;
    assert(all.take(0) =~= Seq::empty());
    proof {
        broadcast use vstd::seq_lib::group_to_multiset_ensures;
        assert(out@.to_multiset() =~= all.take(0).to_multiset());
    }
    while taken.len() > 0
        invariant
            0 <= done <= all.len(),
            taken@.len() == all.len() - done,
            forall|k: int| 0 <= k < taken@.len() ==> #[trigger] taken@[k] == all[all.len() - 1 - k],
            by_path(out@),
            out@.to_multiset() == all.take(done).to_multiset(),
        decreases taken@.len(),
    {
        assert(taken@[taken@.len() - 1] == all[done]);
        match taken.pop() {
            Some(f) => {
                let at: usize = place_for(&out, f.0.as_str());
                let ghost before = out@;
                out.insert(at, f);
                proof {
                    broadcast use vstd::seq_lib::group_to_multiset_ensures;
                    assert(out@ =~= before.insert(at as int, f));
                    assert(all.take(done + 1) =~= all.take(done).push(f));
                    assert(before.insert(at as int, f).to_multiset() =~= before.to_multiset().insert(
                        f,
                    ));
                    lemma_placed(before, f, at as int);
                    done = done + 1;
                }
            },
            None => {},
        }
    }
    assert(all.take(done) =~= all);
    out
}

proof fn lemma_placed(files: Seq<(String, Vec<u8>)>, f: (String, Vec<u8>), at: int)
    requires
        by_path(files),
        0 <= at <= files.len(),
        forall|k: int| 0 <= k < at ==> !text::before(f.0@, (#[trigger] files[k]).0@),
        forall|k: int| at <= k < files.len() ==> text::before(f.0@, (#[trigger] files[k]).0@),
    ensures
        by_path(files.insert(at, f)),
{
    let out = files.insert(at, f);
    assert forall|i: int, j: int| 0 <= i < j < out.len() implies !text::before(
        (#[trigger] out[j]).0@,
        (#[trigger] out[i]).0@,
    ) by {
        if i == at {
            assert(text::before(f.0@, files[j - 1].0@));
            text::law_before_is_total(f.0@, files[j - 1].0@);
        } else if j == at {
            assert(!text::before(f.0@, files[i].0@));
        }
    }
}

/// The fingerprint of files, taken in the order of their paths.
pub fn source_fingerprint(files: Vec<(String, Vec<u8>)>) -> (r: u64)
    ensures
        exists|s: Seq<(String, Vec<u8>)>|
            #[trigger] by_path(s) && s.to_multiset() == files@.to_multiset() && r == hashed(
                OFFSET,
                records(s, s.len() as int),
            ),
{
    let files: Vec<(String, Vec<u8>)> = sorted(files);
    let mut h: u64 = OFFSET;
    let mut i: usize = 0;
    while i < files.len()
        invariant
            i <= files@.len(),
            h == hashed(OFFSET, records(files@, i as int)),
        decreases files@.len() - i,
    {
        let path: &str = files[i].0.as_str();
        let zero: [u8; 1] = [0u8];
        h = take_up(h, path.as_bytes());
        h = take_up(h, zero.as_slice());
        h = take_up(h, files[i].1.as_slice());
        proof {
            let p = records(files@, i as int);
            let name = vstd::utf8::encode_utf8(files@[i as int].0@);
            let body = files@[i as int].1@;
            lemma_hashed(OFFSET, p, name);
            assert(zero@ =~= seq![0u8]);
            lemma_hashed(OFFSET, p + name, zero@);
            lemma_hashed(OFFSET, p + name + zero@, body);
            assert(p + name + zero@ + body =~= records(files@, i + 1));
        }
        i = i + 1;
    }
    h
}

/// Files with different paths have one order, so that the fingerprint does not
/// depend on the order in which they were found.
pub proof fn law_one_fingerprint(a: Seq<(String, Vec<u8>)>, b: Seq<(String, Vec<u8>)>)
    requires
        by_path(a),
        by_path(b),
        a.to_multiset() == b.to_multiset(),
        forall|i: int, j: int|
            0 <= i < j < a.len() ==> (#[trigger] a[i]).0@ != (#[trigger] a[j]).0@,
    ensures
        a == b,
    decreases a.len(),
{
    broadcast use vstd::seq_lib::group_to_multiset_ensures;

    assert(a.to_multiset().len() == a.len() && b.to_multiset().len() == b.len());
    if a.len() > 0 {
        let x = a.last();
        let y = b.last();
        assert(a.contains(x));
        assert(a.to_multiset().count(x) > 0);
        assert(b.contains(x));
        assert(b.contains(y));
        assert(b.to_multiset().count(y) > 0);
        assert(a.contains(y));
        let i = choose|i: int| 0 <= i < a.len() && a[i] == y;
        let j = choose|j: int| 0 <= j < b.len() && b[j] == x;
        if x != y {
            assert(i < a.len() - 1);
            assert(j < b.len() - 1);
            assert(!text::before(a[a.len() - 1].0@, a[i].0@));
            assert(!text::before(b[b.len() - 1].0@, b[j].0@));
            text::law_before_is_total(x.0@, y.0@);
            assert(x.0@ != y.0@);
            assert(false);
        }
        let c = a.drop_last();
        let d = b.drop_last();
        assert(c.push(x) =~= a);
        assert(d.push(x) =~= b);
        assert(c.to_multiset().insert(x) =~= d.to_multiset().insert(x));
        assert(c.to_multiset() =~= d.to_multiset()) by {
            assert(c.to_multiset().insert(x).remove(x) =~= c.to_multiset());
            assert(d.to_multiset().insert(x).remove(x) =~= d.to_multiset());
        }
        law_one_fingerprint(c, d);
    }
}

// --- laws -------------------------------------------------------------------------------------------

/// A step keeps fingerprints apart, and it keeps bytes apart.
proof fn lemma_stepped(g: u64, h: u64, a: u8, b: u8)
    requires
        stepped(g, a) == stepped(h, b),
    ensures
        a == b ==> g == h,
        g == h ==> a == b,
{
    let x = a as u64;
    let y = b as u64;
    crate::book::lemma_factor(g ^ x, h ^ y, PRIME, 14886173955864302971, 887285111055);
    assert(g ^ x == h ^ y ==> (x == y <==> g == h)) by (bit_vector);
}

/// Where one byte changes, the fingerprint changes.
pub proof fn law_a_byte_tells(h: u64, a: Seq<u8>, b: Seq<u8>, i: int)
    requires
        a.len() == b.len(),
        0 <= i < a.len(),
        a[i] != b[i],
        forall|k: int| 0 <= k < a.len() && k != i ==> #[trigger] a[k] == b[k],
    ensures
        hashed(h, a) != hashed(h, b),
    decreases a.len(),
{
    let g = hashed(h, a.drop_last());
    let k = hashed(h, b.drop_last());
    if i == a.len() - 1 {
        assert(a.drop_last() =~= b.drop_last());
    } else {
        law_a_byte_tells(h, a.drop_last(), b.drop_last(), i);
    }
    if stepped(g, a.last()) == stepped(k, b.last()) {
        lemma_stepped(g, k, a.last(), b.last());
    }
}

} // verus!
