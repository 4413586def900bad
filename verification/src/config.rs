//! Deriving the base directories to scan for descriptor files.
//!
//! The search list is built from two environment settings handed in as
//! plain optional byte strings: an explicit data-home directory (with a
//! fallback of `<home>/.local/share`, the home read as empty when unset)
//! and a colon-separated list of data directories (with a fixed fallback
//! list). Every base gets the fixed subdirectory name `applications`
//! joined on. The list is ordered and not deduplicated.

use vstd::prelude::*;

use crate::text::copy_bytes;

verus! {

/// The path separator.
pub const SLASH: u8 = 47;

/// The separator between entries of a directory list.
pub const COLON: u8 = 58;

/// The bytes of the fixed subdirectory name `applications`.
pub open spec fn applications_dir() -> Seq<u8> {
    seq![97u8, 112u8, 112u8, 108u8, 105u8, 99u8, 97u8, 116u8, 105u8, 111u8, 110u8, 115u8]
}

/// Builds the bytes of `applications`.
fn applications_dir_bytes() -> (r: Vec<u8>)
    ensures
        r@ == applications_dir(),
{
    let mut v: Vec<u8> = Vec::new();
    v.push(97);
    v.push(112);
    v.push(112);
    v.push(108);
    v.push(105);
    v.push(99);
    v.push(97);
    v.push(116);
    v.push(105);
    v.push(111);
    v.push(110);
    v.push(115);
    proof {
        assert(v@ =~= applications_dir());
    }
    v
}

/// The bytes of `/.local/share`, the data-home fallback under the home
/// directory.
pub open spec fn home_data_suffix() -> Seq<u8> {
    seq![47u8, 46u8, 108u8, 111u8, 99u8, 97u8, 108u8, 47u8, 115u8, 104u8, 97u8, 114u8, 101u8]
}

/// Builds the bytes of `/.local/share`.
fn home_data_suffix_bytes() -> (r: Vec<u8>)
    ensures
        r@ == home_data_suffix(),
{
    let mut v: Vec<u8> = Vec::new();
    v.push(47);
    v.push(46);
    v.push(108);
    v.push(111);
    v.push(99);
    v.push(97);
    v.push(108);
    v.push(47);
    v.push(115);
    v.push(104);
    v.push(97);
    v.push(114);
    v.push(101);
    proof {
        assert(v@ =~= home_data_suffix());
    }
    v
}

/// The bytes of `/usr/local/share:/usr/share`, the fallback directory
/// list.
pub open spec fn default_data_dirs() -> Seq<u8> {
    seq![47u8, 117u8, 115u8, 114u8, 47u8, 108u8, 111u8, 99u8, 97u8, 108u8, 47u8, 115u8, 104u8, 97u8, 114u8, 101u8, 58u8, 47u8, 117u8, 115u8, 114u8, 47u8, 115u8, 104u8, 97u8, 114u8, 101u8]
}

/// Builds the bytes of `/usr/local/share:/usr/share`.
fn default_data_dirs_bytes() -> (r: Vec<u8>)
    ensures
        r@ == default_data_dirs(),
{
    let mut v: Vec<u8> = Vec::new();
    v.push(47);
    v.push(117);
    v.push(115);
    v.push(114);
    v.push(47);
    v.push(108);
    v.push(111);
    v.push(99);
    v.push(97);
    v.push(108);
    v.push(47);
    v.push(115);
    v.push(104);
    v.push(97);
    v.push(114);
    v.push(101);
    v.push(58);
    v.push(47);
    v.push(117);
    v.push(115);
    v.push(114);
    v.push(47);
    v.push(115);
    v.push(104);
    v.push(97);
    v.push(114);
    v.push(101);
    proof {
        assert(v@ =~= default_data_dirs());
    }
    v
}

/// Appends a path component the way path joining does: a separator is
/// added unless the base is empty or already ends with one.
pub open spec fn spec_join(base: Seq<u8>, comp: Seq<u8>) -> Seq<u8> {
    if base.len() == 0 {
        comp
    } else if base.last() == SLASH {
        base + comp
    } else {
        base + seq![SLASH] + comp
    }
}

/// Joins the subdirectory name `applications` onto a base path.
pub fn join_applications(base: &Vec<u8>) -> (r: Vec<u8>)
    ensures
        r@ == spec_join(base@, applications_dir()),
{
    let mut out = copy_bytes(base);
    if out.len() > 0 && out[out.len() - 1] != SLASH {
        out.push(SLASH);
    }
    let app = applications_dir_bytes();
    out.extend_from_slice(app.as_slice());
    proof {
        assert(out@ =~= spec_join(base@, applications_dir()));
    }
    out
}

/// The pieces of `s` split at colons, with `cur` the piece read so far.
/// Splitting keeps empty pieces: a leading, trailing or doubled colon
/// yields an empty piece, and the empty string yields one empty piece.
pub open spec fn split_colon_from(s: Seq<u8>, cur: Seq<u8>) -> Seq<Seq<u8>>
    decreases s.len(),
{
    if s.len() == 0 {
        seq![cur]
    } else if s[0] == COLON {
        seq![cur] + split_colon_from(s.skip(1), Seq::empty())
    } else {
        split_colon_from(s.skip(1), cur.push(s[0]))
    }
}

/// The pieces of `s` split at colons.
pub open spec fn spec_split_colon(s: Seq<u8>) -> Seq<Seq<u8>> {
    split_colon_from(s, Seq::empty())
}

/// Splits `s` at colons.
pub fn split_colon(s: &Vec<u8>) -> (r: Vec<Vec<u8>>)
    ensures
        r.deep_view() == spec_split_colon(s@),
{
    let mut out: Vec<Vec<u8>> = Vec::new();
    let mut cur: Vec<u8> = Vec::new();
    let mut i: usize = 0;
    proof {
        assert(s@.skip(0) =~= s@);
        assert(out.deep_view() =~~= Seq::<Seq<u8>>::empty());
        assert(out.deep_view() + split_colon_from(s@, cur@) =~~= split_colon_from(s@, cur@));
    }
    while i < s.len()
        invariant
            i <= s@.len(),
            spec_split_colon(s@) == out.deep_view() + split_colon_from(s@.skip(i as int), cur@),
        decreases s@.len() - i,
    {
        let ghost rest = s@.skip(i as int);
        proof {
            assert(rest[0] == s@[i as int]);
            assert(rest.skip(1) =~= s@.skip(i as int + 1));
        }
        if s[i] == COLON {
            let ghost old_out = out.deep_view();
            let ghost piece = cur@;
            out.push(cur);
            cur = Vec::new();
            proof {
                assert(out.deep_view() =~~= old_out.push(piece));
                assert(old_out.push(piece) =~~= old_out + seq![piece]);
                assert((old_out + seq![piece]) + split_colon_from(rest.skip(1), Seq::empty())
                    =~~= old_out + (seq![piece] + split_colon_from(rest.skip(1), Seq::empty())));
            }
        } else {
            cur.push(s[i]);
        }
        i = i + 1;
    }
    proof {
        assert(s@.skip(s@.len() as int) =~= Seq::<u8>::empty());
    }
    let ghost old_out = out.deep_view();
    let ghost piece = cur@;
    out.push(cur);
    proof {
        assert(out.deep_view() =~~= old_out.push(piece));
        assert(old_out.push(piece) =~~= old_out + seq![piece]);
    }
    out
}

/// The configured data-home directory: the explicit setting when
/// present, else the home directory (empty when unset) with
/// `/.local/share` appended.
pub open spec fn spec_data_home(data_home: Option<Seq<u8>>, home: Option<Seq<u8>>) -> Seq<u8> {
    match data_home {
        Some(s) => s,
        None => (match home {
            Some(h) => h,
            None => Seq::empty(),
        }) + home_data_suffix(),
    }
}

/// The ordered base directories to scan: the data-home directory
/// followed by each entry of the directory list, every one with
/// `applications` joined on. Duplicates are kept.
pub open spec fn spec_base_dirs(
    data_home: Option<Seq<u8>>,
    home: Option<Seq<u8>>,
    data_dirs: Option<Seq<u8>>,
) -> Seq<Seq<u8>> {
    let dh = spec_data_home(data_home, home);
    let dirs = match data_dirs {
        Some(s) => s,
        None => default_data_dirs(),
    };
    seq![spec_join(dh, applications_dir())] + spec_split_colon(dirs).map_values(
        |d: Seq<u8>| spec_join(d, applications_dir()),
    )
}

/// Builds the ordered base directories from the two settings and the
/// home directory, each `None` when unset.
pub fn base_directories(
    data_home: Option<Vec<u8>>,
    home: Option<Vec<u8>>,
    data_dirs: Option<Vec<u8>>,
) -> (r: Vec<Vec<u8>>)
    ensures
        r.deep_view() == spec_base_dirs(data_home.deep_view(), home.deep_view(), data_dirs.deep_view()),
{
    let ghost g_dh = data_home.deep_view();
    let ghost g_home = home.deep_view();
    let ghost g_dirs = data_dirs.deep_view();
    let ghost dh_spec = spec_data_home(g_dh, g_home);

    let dh: Vec<u8> = match data_home {
        Some(v) => {
            proof {
                assert(v.deep_view() =~= v@);
            }
            v
        },
        None => {
            let mut h: Vec<u8> = match home {
                Some(h0) => {
                    proof {
                        assert(h0.deep_view() =~= h0@);
                    }
                    h0
                },
                None => Vec::new(),
            };
            let suf = home_data_suffix_bytes();
            h.extend_from_slice(suf.as_slice());
            h
        },
    };
    proof {
        assert(dh@ =~= dh_spec);
    }

    let dirs: Vec<u8> = match data_dirs {
        Some(v) => {
            proof {
                assert(v.deep_view() =~= v@);
            }
            v
        },
        None => default_data_dirs_bytes(),
    };
    let ghost dirs_spec = (match g_dirs {
        Some(s) => s,
        None => default_data_dirs(),
    });
    proof {
        assert(dirs@ =~= dirs_spec);
    }

    let mut out: Vec<Vec<u8>> = Vec::new();
    out.push(join_applications(&dh));
    let pieces = split_colon(&dirs);
    let ghost pdv = pieces.deep_view();
    let ghost mapped = pdv.map_values(|d: Seq<u8>| spec_join(d, applications_dir()));
    let ghost head = seq![spec_join(dh_spec, applications_dir())];
    let mut i: usize = 0;
    proof {
        assert(out.deep_view() =~~= head + mapped.take(0));
    }
    while i < pieces.len()
        invariant
            pdv == pieces.deep_view(),
            pdv.len() == pieces@.len(),
            i <= pieces@.len(),
            mapped.len() == pdv.len(),
            forall|k: int| 0 <= k < pdv.len() ==> mapped[k] == spec_join(
                pdv[k],
                applications_dir(),
            ),
            out.deep_view() == head + mapped.take(i as int),
        decreases pieces@.len() - i,
    {
        let ghost old_out = out.deep_view();
        let p = &pieces[i];
        proof {
            assert(pdv[i as int] =~= pieces@[i as int]@);
        }
        out.push(join_applications(p));
        proof {
            assert(out.deep_view() =~~= old_out.push(mapped[i as int]));
            assert(old_out.push(mapped[i as int]) =~~= head + mapped.take(i as int + 1));
        }
        i = i + 1;
    }
    proof {
        assert(mapped.take(pieces@.len() as int) =~~= mapped);
        assert(head + mapped =~~= spec_base_dirs(g_dh, g_home, g_dirs));
    }
    out
}

} // verus!
