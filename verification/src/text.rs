//! Byte-string utilities: line splitting, prefix tests, prefix trimming.
//!
//! Descriptor files are line-oriented UTF-8 text. Lines are separated by
//! a line feed; a carriage return directly before a line feed belongs to
//! the separator and is dropped; a final line without a terminator still
//! counts. The key bytes this library looks at are all ASCII, so working
//! on the raw bytes agrees with working on the decoded characters.

use vstd::prelude::*;

verus! {

/// The line feed character.
pub const LINE_FEED: u8 = 10;

/// The carriage return character.
pub const CARRIAGE_RETURN: u8 = 13;

/// Drops a single trailing carriage return, if present.
pub open spec fn chomp_cr(l: Seq<u8>) -> Seq<u8> {
    if l.len() > 0 && l.last() == CARRIAGE_RETURN {
        l.drop_last()
    } else {
        l
    }
}

/// The lines of `s`, with `cur` holding the bytes of the line read so
/// far. A line feed ends a line (dropping a carriage return just before
/// it); input that ends without a terminator still yields its last line,
/// while input that ends right after a terminator yields nothing more.
pub open spec fn lines_from(s: Seq<u8>, cur: Seq<u8>) -> Seq<Seq<u8>>
    decreases s.len(),
{
    if s.len() == 0 {
        if cur.len() == 0 {
            Seq::empty()
        } else {
            seq![cur]
        }
    } else if s[0] == LINE_FEED {
        seq![chomp_cr(cur)] + lines_from(s.skip(1), Seq::empty())
    } else {
        lines_from(s.skip(1), cur.push(s[0]))
    }
}

/// The lines of `s`.
pub open spec fn spec_lines(s: Seq<u8>) -> Seq<Seq<u8>> {
    lines_from(s, Seq::empty())
}

/// Splits `content` into its lines.
pub fn split_lines(content: &Vec<u8>) -> (r: Vec<Vec<u8>>)
    ensures
        r.deep_view() == spec_lines(content@),
{
    let mut out: Vec<Vec<u8>> = Vec::new();
    let mut cur: Vec<u8> = Vec::new();
    let mut i: usize = 0;
    proof {
        assert(content@.skip(0) =~= content@);
        assert(out.deep_view() =~~= Seq::<Seq<u8>>::empty());
        assert(out.deep_view() + lines_from(content@, cur@) =~~= lines_from(content@, cur@));
    }
    while i < content.len()
        invariant
            i <= content.len(),
            spec_lines(content@) == out.deep_view() + lines_from(
                content@.skip(i as int),
                cur@,
            ),
        decreases content.len() - i,
    {
        let ghost rest = content@.skip(i as int);
        proof {
            assert(rest[0] == content@[i as int]);
            assert(rest.skip(1) =~= content@.skip(i as int + 1));
        }
        if content[i] == LINE_FEED {
            let ghost pre = cur@;
            if cur.len() > 0 && cur[cur.len() - 1] == CARRIAGE_RETURN {
                cur.pop();
            }
            proof {
                assert(cur@ =~= chomp_cr(pre));
            }
            let ghost old_out = out.deep_view();
            let ghost line = cur@;
            out.push(cur);
            cur = Vec::new();
            proof {
                assert(out.deep_view() =~~= old_out.push(line));
                assert(old_out.push(line) =~~= old_out + seq![line]);
                assert((old_out + seq![line]) + lines_from(rest.skip(1), Seq::empty())
                    =~~= old_out + (seq![line] + lines_from(rest.skip(1), Seq::empty())));
            }
        } else {
            cur.push(content[i]);
        }
        i = i + 1;
    }
    proof {
        assert(content@.skip(content@.len() as int) =~= Seq::<u8>::empty());
    }
    if cur.len() > 0 {
        let ghost old_out = out.deep_view();
        let ghost line = cur@;
        out.push(cur);
        proof {
            assert(out.deep_view() =~~= old_out.push(line));
            assert(old_out.push(line) =~~= old_out + seq![line]);
        }
    } else {
        proof {
            assert(out.deep_view() + lines_from(Seq::empty(), cur@) =~~= out.deep_view());
        }
    }
    out
}

/// Whether the bytes of `p` stand at the front of `l`.
pub fn starts_with(l: &Vec<u8>, p: &Vec<u8>) -> (r: bool)
    ensures
        r == p@.is_prefix_of(l@),
{
    if p.len() > l.len() {
        proof {
            assert(!p@.is_prefix_of(l@));
        }
        return false;
    }
    let mut j: usize = 0;
    while j < p.len()
        invariant
            j <= p.len() <= l.len(),
            forall|k: int| 0 <= k < j ==> l@[k] == p@[k],
        decreases p.len() - j,
    {
        if l[j] != p[j] {
            proof {
                if p@.is_prefix_of(l@) {
                    assert(l@.take(p@.len() as int)[j as int] == l@[j as int]);
                }
            }
            return false;
        }
        j = j + 1;
    }
    proof {
        assert(p@ =~= l@.take(p@.len() as int));
    }
    true
}

/// Whether the bytes of `p` stand in `l` at position `i`.
fn matches_at(l: &Vec<u8>, p: &Vec<u8>, i: usize) -> (r: bool)
    requires
        i <= l@.len(),
    ensures
        r == p@.is_prefix_of(l@.skip(i as int)),
{
    if p.len() > l.len() - i {
        proof {
            assert(!p@.is_prefix_of(l@.skip(i as int)));
        }
        return false;
    }
    let mut j: usize = 0;
    while j < p.len()
        invariant
            i + p.len() <= l.len(),
            j <= p.len(),
            forall|k: int| 0 <= k < j ==> l@[i + k] == p@[k],
        decreases p.len() - j,
    {
        if l[i + j] != p[j] {
            proof {
                let rest = l@.skip(i as int);
                if p@.is_prefix_of(rest) {
                    assert(rest.take(p@.len() as int)[j as int] == rest[j as int]);
                    assert(rest[j as int] == l@[i + j]);
                }
            }
            return false;
        }
        j = j + 1;
    }
    proof {
        let rest = l@.skip(i as int);
        assert forall|k: int| 0 <= k < p@.len() implies rest[k] == p@[k] by {
            assert(rest[k] == l@[i + k]);
        }
        assert(p@ =~= rest.take(p@.len() as int));
    }
    true
}

/// Removes every leading repetition of `p` from `l`, as repeated prefix
/// trimming does.
pub open spec fn spec_trim_prefix_all(l: Seq<u8>, p: Seq<u8>) -> Seq<u8>
    decreases l.len(),
{
    if p.len() > 0 && p.is_prefix_of(l) {
        spec_trim_prefix_all(l.skip(p.len() as int), p)
    } else {
        l
    }
}

/// Removes every leading repetition of `p` from `l`.
pub fn trim_prefix_all(l: &Vec<u8>, p: &Vec<u8>) -> (r: Vec<u8>)
    requires
        p@.len() > 0,
    ensures
        r@ == spec_trim_prefix_all(l@, p@),
{
    let n = l.len();
    let mut i: usize = 0;
    proof {
        assert(l@.skip(0) =~= l@);
    }
    let mut m = matches_at(l, p, i);
    while m
        invariant
            n == l@.len(),
            i <= l@.len(),
            p@.len() > 0,
            m == p@.is_prefix_of(l@.skip(i as int)),
            spec_trim_prefix_all(l@, p@) == spec_trim_prefix_all(l@.skip(i as int), p@),
        decreases l@.len() - i,
    {
        proof {
            assert(p@.len() <= l@.skip(i as int).len());
            assert(l@.skip(i as int).skip(p@.len() as int) =~= l@.skip(
                i as int + p@.len() as int,
            ));
        }
        i = i + p.len();
        m = matches_at(l, p, i);
    }
    let mut out: Vec<u8> = Vec::new();
    let mut k: usize = i;
    while k < l.len()
        invariant
            i <= k <= l@.len(),
            out@ == l@.subrange(i as int, k as int),
        decreases l.len() - k,
    {
        out.push(l[k]);
        proof {
            assert(l@.subrange(i as int, k as int).push(l@[k as int]) =~= l@.subrange(
                i as int,
                k as int + 1,
            ));
        }
        k = k + 1;
    }
    proof {
        assert(out@ =~= l@.skip(i as int));
    }
    out
}

/// Copies a byte string.
pub fn copy_bytes(v: &Vec<u8>) -> (r: Vec<u8>)
    ensures
        r@ == v@,
{
    let mut out: Vec<u8> = Vec::new();
    let mut k: usize = 0;
    while k < v.len()
        invariant
            k <= v@.len(),
            out@ == v@.take(k as int),
        decreases v.len() - k,
    {
        out.push(v[k]);
        proof {
            assert(v@.take(k as int).push(v@[k as int]) =~= v@.take(k as int + 1));
        }
        k = k + 1;
    }
    proof {
        assert(v@.take(v@.len() as int) =~= v@);
    }
    out
}

/// Whether two byte strings hold the same bytes.
pub fn bytes_eq(a: &Vec<u8>, b: &Vec<u8>) -> (r: bool)
    ensures
        r == (a@ == b@),
{
    if a.len() != b.len() {
        proof {
            if a@ == b@ {
                assert(a@.len() == b@.len());
            }
        }
        return false;
    }
    let mut j: usize = 0;
    while j < a.len()
        invariant
            j <= a@.len(),
            a@.len() == b@.len(),
            forall|k: int| 0 <= k < j ==> a@[k] == b@[k],
        decreases a.len() - j,
    {
        if a[j] != b[j] {
            return false;
        }
        j = j + 1;
    }
    proof {
        assert(a@ =~= b@);
    }
    true
}

} // verus!
