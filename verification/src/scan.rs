//! The scanner's file test: does a path name a descriptor file?
//!
//! The directory walk itself is input/output and lives outside the
//! library; what is verified here is the decision it makes for each
//! directory entry: a file takes part exactly when its name carries the
//! fixed `desktop` extension. The extension is read as path handling
//! does: the file name is the part after the last separator, and its
//! extension is what follows the last dot, where a dot that starts the
//! file name opens no extension.

use vstd::prelude::*;

use crate::config::SLASH;
use crate::text::bytes_eq;

verus! {

/// The dot that separates a file name from its extension.
pub const DOT: u8 = 46;

/// The bytes of the target extension `desktop`.
pub open spec fn desktop_ext() -> Seq<u8> {
    seq![100u8, 101u8, 115u8, 107u8, 116u8, 111u8, 112u8]
}

/// Builds the bytes of `desktop`.
fn desktop_ext_bytes() -> (r: Vec<u8>)
    ensures
        r@ == desktop_ext(),
{
    let mut v: Vec<u8> = Vec::new();
    v.push(100);
    v.push(101);
    v.push(115);
    v.push(107);
    v.push(116);
    v.push(111);
    v.push(112);
    proof {
        assert(v@ =~= desktop_ext());
    }
    v
}

/// The file name of a path: the bytes after the last separator, with
/// `cur` the bytes read since the last separator so far.
pub open spec fn file_name_from(s: Seq<u8>, cur: Seq<u8>) -> Seq<u8>
    decreases s.len(),
{
    if s.len() == 0 {
        cur
    } else if s[0] == SLASH {
        file_name_from(s.skip(1), Seq::empty())
    } else {
        file_name_from(s.skip(1), cur.push(s[0]))
    }
}

/// The file name of a path.
pub open spec fn spec_file_name(p: Seq<u8>) -> Seq<u8> {
    file_name_from(p, Seq::empty())
}

/// The extension seen while scanning `s`, with `cur` the bytes read
/// since the last dot, or `None` when no dot was seen yet.
pub open spec fn ext_from(s: Seq<u8>, cur: Option<Seq<u8>>) -> Option<Seq<u8>>
    decreases s.len(),
{
    if s.len() == 0 {
        cur
    } else if s[0] == DOT {
        ext_from(s.skip(1), Some(Seq::empty()))
    } else {
        ext_from(
            s.skip(1),
            match cur {
                Some(c) => Some(c.push(s[0])),
                None => None,
            },
        )
    }
}

/// The extension of a file name: the bytes after the last dot, where
/// the file name's first byte opens no extension even when it is a dot.
pub open spec fn spec_extension(fname: Seq<u8>) -> Option<Seq<u8>> {
    if fname.len() == 0 {
        None
    } else {
        ext_from(fname.skip(1), None)
    }
}

/// Extracts the file name of `path`.
pub fn file_name(path: &Vec<u8>) -> (r: Vec<u8>)
    ensures
        r@ == spec_file_name(path@),
{
    let mut cur: Vec<u8> = Vec::new();
    let mut i: usize = 0;
    proof {
        assert(path@.skip(0) =~= path@);
    }
    while i < path.len()
        invariant
            i <= path@.len(),
            spec_file_name(path@) == file_name_from(path@.skip(i as int), cur@),
        decreases path@.len() - i,
    {
        let ghost rest = path@.skip(i as int);
        proof {
            assert(rest[0] == path@[i as int]);
            assert(rest.skip(1) =~= path@.skip(i as int + 1));
        }
        if path[i] == SLASH {
            cur = Vec::new();
        } else {
            cur.push(path[i]);
        }
        i = i + 1;
    }
    proof {
        assert(path@.skip(path@.len() as int) =~= Seq::<u8>::empty());
    }
    cur
}

/// Extracts the extension of the file name `fname`.
pub fn extension_of(fname: &Vec<u8>) -> (r: Option<Vec<u8>>)
    ensures
        r is Some <==> spec_extension(fname@) is Some,
        r is Some ==> r->0@ == spec_extension(fname@)->0,
{
    if fname.len() == 0 {
        return None;
    }
    let mut found = false;
    let mut cur: Vec<u8> = Vec::new();
    let mut i: usize = 1;
    while i < fname.len()
        invariant
            1 <= i <= fname@.len(),
            fname@.len() > 0,
            spec_extension(fname@) == ext_from(
                fname@.skip(i as int),
                if found {
                    Some(cur@)
                } else {
                    None
                },
            ),
        decreases fname@.len() - i,
    {
        let ghost rest = fname@.skip(i as int);
        proof {
            assert(rest[0] == fname@[i as int]);
            assert(rest.skip(1) =~= fname@.skip(i as int + 1));
        }
        if fname[i] == DOT {
            found = true;
            cur = Vec::new();
        } else if found {
            cur.push(fname[i]);
        }
        i = i + 1;
    }
    proof {
        assert(fname@.skip(fname@.len() as int) =~= Seq::<u8>::empty());
    }
    if found {
        Some(cur)
    } else {
        None
    }
}

/// Whether `path` names a file with the `desktop` extension.
pub fn has_desktop_extension(path: &Vec<u8>) -> (r: bool)
    ensures
        r == (spec_extension(spec_file_name(path@)) == Some(desktop_ext())),
{
    let fname = file_name(path);
    let ext = extension_of(&fname);
    match ext {
        Some(e) => {
            let want = desktop_ext_bytes();
            bytes_eq(&e, &want)
        },
        None => false,
    }
}

} // verus!
