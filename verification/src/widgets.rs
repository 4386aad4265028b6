//! Text shaping for the widgets of the interface.

use vstd::prelude::*;

verus! {

/// `path` shortened to fit `max_chars` characters: kept whole when it fits, else an
/// ellipsis followed by its last `max_chars - 1` characters (none when `max_chars` is 0).
pub open spec fn spec_compact_path(path: Seq<char>, max_chars: nat) -> Seq<char> {
    if path.len() <= max_chars {
        path
    } else {
        let tail_len: int = if max_chars == 0 { 0 } else { max_chars - 1 };
        seq!['\u{2026}'] + path.subrange(path.len() - tail_len, path.len() as int)
    }
}

/// Shortens a path from the left so that it fits `max_chars` characters.
pub fn compact_path(path: &str, max_chars: usize) -> (res: String)
    ensures
        res@ == spec_compact_path(path@, max_chars as nat),
        res@.len() <= if max_chars == 0 { 1 } else { max_chars as int },
        path@.len() > max_chars ==> res@.skip(1).is_suffix_of(path@),
{
    let char_count = path.unicode_len();
    if char_count <= max_chars {
        return path.to_owned();
    }
    let tail_len = if max_chars == 0 { 0 } else { max_chars - 1 };
    proof {
        reveal_strlit("\u{2026}");
    }
    let mut res = String::from_str("\u{2026}");
    res.append(path.substring_char(char_count - tail_len, char_count));
    assert(res@.skip(1) =~= path@.subrange(char_count - tail_len, char_count as int));
    res
}

} // verus!
