//! Parsing one descriptor file into a desktop entry.
//!
//! A descriptor is line-oriented `key=value` text. Only two keys matter:
//! `Name=` and `Exec=`. The first line carrying each key wins; later
//! duplicates are ignored. If either key is missing the file yields no
//! entry. The `Exec=` value has its placeholder tokens removed, and the
//! display name is composed as `"<Name> (<cleaned Exec>)"`.

use vstd::prelude::*;

use crate::placeholders::remove_placeholders;
use crate::placeholders::strip_placeholders;
use crate::text::spec_lines;
use crate::text::spec_trim_prefix_all;
use crate::text::split_lines;
use crate::text::starts_with;
use crate::text::trim_prefix_all;

verus! {

/// One launchable application: its composed display name and its
/// cleaned launch command.
pub struct DesktopEntry {
    /// Display name, composed as `"<Name> (<cleaned Exec>)"`.
    pub name: Vec<u8>,
    /// Launch command with placeholder tokens removed.
    pub command: Vec<u8>,
}

/// The bytes of the `Name=` key prefix.
pub open spec fn name_key() -> Seq<u8> {
    seq![78u8, 97u8, 109u8, 101u8, 61u8]
}

/// The bytes of the `Exec=` key prefix.
pub open spec fn exec_key() -> Seq<u8> {
    seq![69u8, 120u8, 101u8, 99u8, 61u8]
}

/// Builds the `Name=` key prefix.
fn name_key_bytes() -> (r: Vec<u8>)
    ensures
        r@ == name_key(),
{
    let mut v: Vec<u8> = Vec::new();
    v.push(78);
    v.push(97);
    v.push(109);
    v.push(101);
    v.push(61);
    proof {
        assert(v@ =~= name_key());
    }
    v
}

/// Builds the `Exec=` key prefix.
fn exec_key_bytes() -> (r: Vec<u8>)
    ensures
        r@ == exec_key(),
{
    let mut v: Vec<u8> = Vec::new();
    v.push(69);
    v.push(120);
    v.push(101);
    v.push(99);
    v.push(61);
    proof {
        assert(v@ =~= exec_key());
    }
    v
}

/// The value of the first line of `lines` that starts with `p`, with
/// every leading repetition of `p` trimmed off; `None` when no line
/// starts with `p`.
pub open spec fn first_value(lines: Seq<Seq<u8>>, p: Seq<u8>) -> Option<Seq<u8>>
    decreases lines.len(),
{
    if lines.len() == 0 {
        None
    } else if p.is_prefix_of(lines[0]) {
        Some(spec_trim_prefix_all(lines[0], p))
    } else {
        first_value(lines.drop_first(), p)
    }
}

/// The raw `Name=` value of a descriptor's content, if any.
pub open spec fn spec_name_value(content: Seq<u8>) -> Option<Seq<u8>> {
    first_value(spec_lines(content), name_key())
}

/// The raw `Exec=` value of a descriptor's content, if any.
pub open spec fn spec_exec_value(content: Seq<u8>) -> Option<Seq<u8>> {
    first_value(spec_lines(content), exec_key())
}

/// The display name composed from a raw name and a cleaned command:
/// the name, a space, and the command in parentheses.
pub open spec fn composed_name(raw_name: Seq<u8>, cleaned: Seq<u8>) -> Seq<u8> {
    raw_name + seq![32u8, 40u8] + cleaned + seq![41u8]
}

/// Parses the content of one descriptor file.
///
/// Yields an entry exactly when the content holds both a `Name=` line
/// and an `Exec=` line; the entry's command is the first `Exec=` value
/// with placeholders stripped, and its display name is composed from
/// the first `Name=` value and that cleaned command.
pub fn parse_desktop_file(content: &Vec<u8>) -> (r: Option<DesktopEntry>)
    ensures
        r is Some <==> (spec_name_value(content@) is Some && spec_exec_value(content@) is Some),
        r is Some ==> r->0.command@ == strip_placeholders(spec_exec_value(content@)->0),
        r is Some ==> r->0.name@ == composed_name(spec_name_value(content@)->0, r->0.command@),
{
    let lines = split_lines(content);
    let nk = name_key_bytes();
    let ek = exec_key_bytes();
    let ghost lv = lines.deep_view();
    let mut name: Option<Vec<u8>> = None;
    let mut cmd: Option<Vec<u8>> = None;
    let mut j: usize = 0;
    proof {
        assert(lv.skip(0) =~~= lv);
    }
    while j < lines.len() && !(name.is_some() && cmd.is_some())
        invariant
            nk@ == name_key(),
            ek@ == exec_key(),
            lv == lines.deep_view(),
            lv == spec_lines(content@),
            lv.len() == lines@.len(),
            j <= lines@.len(),
            match name {
                Some(v) => first_value(lv, name_key()) == Some(v@),
                None => first_value(lv, name_key()) == first_value(lv.skip(j as int), name_key()),
            },
            match cmd {
                Some(v) => first_value(lv, exec_key()) == Some(v@),
                None => first_value(lv, exec_key()) == first_value(lv.skip(j as int), exec_key()),
            },
        decreases lines@.len() - j,
    {
        let ghost rest = lv.skip(j as int);
        proof {
            assert(rest[0] == lv[j as int]);
            assert(lv[j as int] =~= lines@[j as int]@);
            assert(rest.drop_first() =~~= lv.skip(j as int + 1));
        }
        let line = &lines[j];
        if name.is_none() && starts_with(line, &nk) {
            name = Some(trim_prefix_all(line, &nk));
        } else if cmd.is_none() && starts_with(line, &ek) {
            cmd = Some(trim_prefix_all(line, &ek));
        } else {
            proof {
                if name is None {
                    assert(!name_key().is_prefix_of(rest[0]));
                }
                if cmd is None {
                    assert(!exec_key().is_prefix_of(rest[0]));
                }
            }
        }
        j = j + 1;
    }
    proof {
        if j >= lines@.len() {
            assert(lv.skip(j as int) =~~= Seq::<Seq<u8>>::empty());
        }
    }
    match (name, cmd) {
        (Some(n), Some(e)) => {
            let cleaned = remove_placeholders(&e);
            let ghost raw_name = n@;
            let mut display = n;
            display.push(32);
            display.push(40);
            display.extend_from_slice(cleaned.as_slice());
            display.push(41);
            proof {
                assert(display@ =~= composed_name(raw_name, cleaned@));
            }
            Some(DesktopEntry { name: display, command: cleaned })
        },
        _ => None,
    }
}

} // verus!
