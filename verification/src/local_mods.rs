//! Which files of a mods folder are mods.

use crate::models::{LocalMod, LocalModView};
use crate::text::{chars_of, is_stable_sort_of, stable_order};
use crate::updater::locals_view;
use vstd::prelude::*;

verus! {

/// ASCII lower case of a character; other characters stay.
pub open spec fn ascii_lower(c: char) -> char {
    if 'A' <= c && c <= 'Z' {
        ((c as u32) + 32) as char
    } else {
        c
    }
}

/// Two texts are equal ignoring ASCII case.
pub open spec fn eq_ignore_ascii_case(a: Seq<char>, b: Seq<char>) -> bool {
    a.len() == b.len() && forall|i: int| 0 <= i < a.len() ==> ascii_lower(a[i]) == ascii_lower(b[i])
}

fn lower_char(c: char) -> (r: char)
    ensures
        r == ascii_lower(c),
{
    if 'A' <= c && c <= 'Z' {
        let u: u32 = (c as u32) + 32;
        assert(u <= 0x7f);
        proof {
            vstd::utf8::char_u32_cast(c, c as u32);
        }
        u as u8 as char
    } else {
        c
    }
}

/// A file is a mod when its extension is `jar`, in any ASCII case.
pub fn is_jar_extension(extension: &str) -> (b: bool)
    ensures
        b == eq_ignore_ascii_case(extension@, "jar"@),
{
    proof {
        reveal_strlit("jar");
    }
    let cs = chars_of(extension);
    if cs.len() != 3 {
        return false;
    }
    let a = lower_char(cs[0]);
    let b = lower_char(cs[1]);
    let c = lower_char(cs[2]);
    let r = a == 'j' && b == 'a' && c == 'r';
    proof {
        if r {
            assert forall|i: int| 0 <= i < 3 implies ascii_lower(extension@[i]) == ascii_lower("jar"@[i]) by {}
        } else {
            assert(ascii_lower(extension@[0]) != ascii_lower("jar"@[0]) || ascii_lower(extension@[1]) != ascii_lower("jar"@[1]) || ascii_lower(extension@[2]) != ascii_lower("jar"@[2]));
        }
    }
    r
}

/// Sort keys of jars: their file names.
pub open spec fn filename_keys(s: Seq<LocalModView>) -> Seq<Seq<char>> {
    s.map_values(|m: LocalModView| m.filename)
}

/// The jars stably sorted by file name (code-point order, the order of `str`).
pub fn sort_by_filename(mods: Vec<LocalMod>) -> (r: Vec<LocalMod>)
    ensures
        is_stable_sort_of(locals_view(mods@), filename_keys(locals_view(mods@)), locals_view(r@)),
{
    let ghost mv = locals_view(mods@);
    let mut keys: Vec<Vec<char>> = Vec::new();
    let mut i: usize = 0;
    while i < mods.len()
        invariant
            mv == locals_view(mods@),
            i <= mods@.len(),
            keys@.len() == i,
            forall|k: int| 0 <= k < i ==> #[trigger] keys@[k]@ == mv[k].filename,
        decreases mods@.len() - i,
    {
        keys.push(chars_of(mods[i].filename.as_str()));
        i = i + 1;
    }
    assert(keys@.map_values(|k: Vec<char>| k@) =~= filename_keys(mv));
    let order = stable_order(&keys);
    let mut sorted: Vec<LocalMod> = Vec::new();
    let mut k: usize = 0;
    while k < order.len()
        invariant
            mv == locals_view(mods@),
            order@.len() == mods@.len(),
            forall|a: int| 0 <= a < order@.len() ==> order@[a] < mods@.len(),
            k <= order@.len(),
            sorted@.len() == k,
            forall|a: int| 0 <= a < k ==> #[trigger] sorted@[a]@ == mv[order@[a] as int],
        decreases order@.len() - k,
    {
        sorted.push(mods[order[k]].clone());
        k = k + 1;
    }
    let ghost sv = locals_view(sorted@);
    assert forall|a: int| 0 <= a < sv.len() implies #[trigger] sv[a] == mv[order@[a] as int] by {
        assert(sv[a] == sorted@[a]@);
    }
    sorted
}

} // verus!
