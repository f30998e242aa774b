//! Recognition of media files by their path extension, case-insensitively.
//! Directory walking is the caller's concern; the rule of which files belong
//! in a playlist lives here.

use vstd::prelude::*;
use crate::protocol::after_last_slash;

verus! {

/// The code point of `c` with an ASCII capital folded to its small letter.
pub open spec fn lower_code(c: char) -> int {
    if 'A' as int <= c as int <= 'Z' as int {
        c as int + 32
    } else {
        c as int
    }
}

/// Whether `s` spells `lit` up to ASCII case, where `lit` is already in
/// small letters.
pub open spec fn eq_lower(s: Seq<char>, lit: Seq<char>) -> bool {
    s.len() == lit.len() && forall|i: int|
        0 <= i < s.len() ==> lower_code(#[trigger] s[i]) == lit[i] as int
}

/// The characters after the last dot, the whole sequence when no dot
/// occurs.
pub open spec fn after_last_dot(s: Seq<char>) -> Seq<char>
    decreases s.len(),
{
    if s.len() == 0 {
        s
    } else if s.last() == '.' {
        Seq::empty()
    } else {
        after_last_dot(s.drop_last()).push(s.last())
    }
}

/// The extension of a path: the characters after the last dot of its final
/// component, provided a dot stands past the component's first character —
/// a name that is nothing but a leading dot has no extension.
pub open spec fn spec_extension(path: Seq<char>) -> Option<Seq<char>> {
    let name = after_last_slash(path);
    if exists|j: int| 1 <= j < name.len() && name[j] == '.' {
        Some(after_last_dot(name))
    } else {
        None
    }
}

/// Whether an extension names a known image, video or audio format.
pub open spec fn spec_is_media_ext(e: Seq<char>) -> bool {
    ||| eq_lower(e, "jpg"@)
    ||| eq_lower(e, "jpeg"@)
    ||| eq_lower(e, "png"@)
    ||| eq_lower(e, "gif"@)
    ||| eq_lower(e, "bmp"@)
    ||| eq_lower(e, "webp"@)
    ||| eq_lower(e, "tiff"@)
    ||| eq_lower(e, "mp4"@)
    ||| eq_lower(e, "mkv"@)
    ||| eq_lower(e, "avi"@)
    ||| eq_lower(e, "mov"@)
    ||| eq_lower(e, "wmv"@)
    ||| eq_lower(e, "flv"@)
    ||| eq_lower(e, "webm"@)
    ||| eq_lower(e, "mp3"@)
    ||| eq_lower(e, "wav"@)
    ||| eq_lower(e, "flac"@)
    ||| eq_lower(e, "ogg"@)
    ||| eq_lower(e, "m4a"@)
    ||| eq_lower(e, "aac"@)
}

/// Whether a path names a media file: it has an extension and the extension
/// is a known format up to ASCII case.
pub open spec fn spec_is_media_file(path: Seq<char>) -> bool {
    match spec_extension(path) {
        Some(e) => spec_is_media_ext(e),
        None => false,
    }
}

/// Whether `s` spells `lit` up to ASCII case, as `eq_lower` says.
fn eq_lower_str(s: &str, lit: &str) -> (r: bool)
    ensures
        r == eq_lower(s@, lit@),
{
    let n = s.unicode_len();
    let m = lit.unicode_len();
    if n != m {
        return false;
    }
    for i in 0..n
        invariant
            n == s@.len(),
            n == lit@.len(),
            forall|k: int| 0 <= k < i ==> lower_code(#[trigger] s@[k]) == lit@[k] as int,
    {
        let c = s.get_char(i);
        let l = lit.get_char(i);
        let u = c as u32;
        let folded: u32 = if 65 <= u && u <= 90 {
            u + 32
        } else {
            u
        };
        if folded != (l as u32) {
            return false;
        }
    }
    true
}

/// Whether a path names a media file, as `spec_is_media_file` says.
pub fn is_media_file(path: &str) -> (r: bool)
    ensures
        r == spec_is_media_file(path@),
{
    let n = path.unicode_len();
    // Find where the final path component starts.
    let mut j: usize = n;
    proof {
        assert(path@.take(n as int) =~= path@);
        assert(after_last_slash(path@) + path@.skip(n as int) =~= after_last_slash(path@));
    }
    loop
        invariant_except_break
            0 <= j <= n,
            n == path@.len(),
            after_last_slash(path@) == after_last_slash(path@.take(j as int)) + path@.skip(
                j as int,
            ),
            forall|m: int| j <= m < n ==> path@[m] != '/',
        ensures
            0 <= j <= n,
            n == path@.len(),
            after_last_slash(path@) == path@.skip(j as int),
            forall|m: int| j <= m < n ==> path@[m] != '/',
        decreases j,
    {
        proof {
            assert(path@.take(j as int).len() == j);
        }
        if j == 0 {
            proof {
                assert(after_last_slash(path@.take(0)) =~= Seq::<char>::empty());
                assert(Seq::<char>::empty() + path@.skip(0) =~= path@.skip(0));
            }
            break ;
        }
        let c = path.get_char(j - 1);
        proof {
            assert(path@.take(j as int).last() == path@[j - 1]);
        }
        if c == '/' {
            proof {
                assert(after_last_slash(path@.take(j as int)) =~= Seq::<char>::empty());
                assert(Seq::<char>::empty() + path@.skip(j as int) =~= path@.skip(j as int));
            }
            break ;
        }
        proof {
            let t = path@.take(j as int);
            assert(t.drop_last() =~= path@.take(j as int - 1));
            assert(after_last_slash(t) == after_last_slash(path@.take(j as int - 1)).push(
                path@[j - 1],
            ));
            assert(after_last_slash(path@.take(j as int - 1)).push(path@[j - 1]) + path@.skip(
                j as int,
            ) =~= after_last_slash(path@.take(j as int - 1)) + path@.skip(j as int - 1));
        }
        j = j - 1;
    }
    let ghost name = path@.skip(j as int);
    // Find where the extension starts within the final component.
    let mut k: usize = n;
    proof {
        assert(name.take(n - j) =~= name);
        assert(after_last_dot(name) + path@.skip(n as int) =~= after_last_dot(name));
    }
    loop
        invariant_except_break
            j <= k <= n,
            n == path@.len(),
            name == path@.skip(j as int),
            after_last_dot(name) == after_last_dot(name.take(k - j)) + path@.skip(k as int),
            forall|m: int| k <= m < n ==> path@[m] != '.',
        ensures
            j <= k <= n,
            n == path@.len(),
            name == path@.skip(j as int),
            after_last_dot(name) == path@.skip(k as int),
            forall|m: int| k <= m < n ==> path@[m] != '.',
            k == j || path@[k - 1] == '.',
        decreases k,
    {
        proof {
            assert(name.take(k - j).len() == k - j);
            assert(forall|m: int| 0 <= m < n - j ==> name[m] == #[trigger] path@[j + m]);
        }
        if k == j {
            proof {
                assert(after_last_dot(name.take(0)) =~= Seq::<char>::empty());
                assert(Seq::<char>::empty() + path@.skip(j as int) =~= name);
            }
            break ;
        }
        let c = path.get_char(k - 1);
        proof {
            assert(name.take(k - j).last() == name[k - j - 1]);
            assert(name[k - j - 1] == path@[k - 1]);
        }
        if c == '.' {
            proof {
                assert(after_last_dot(name.take(k - j)) =~= Seq::<char>::empty());
                assert(Seq::<char>::empty() + path@.skip(k as int) =~= path@.skip(k as int));
            }
            break ;
        }
        proof {
            let t = name.take(k - j);
            assert(t.drop_last() =~= name.take(k - j - 1));
            assert(after_last_dot(t) == after_last_dot(name.take(k - j - 1)).push(path@[k - 1]));
            assert(after_last_dot(name.take(k - j - 1)).push(path@[k - 1]) + path@.skip(k as int)
                =~= after_last_dot(name.take(k - j - 1)) + path@.skip(k as int - 1));
        }
        k = k - 1;
    }
    // A dot must stand past the component's first character.
    if k == j || k - 1 == j {
        proof {
            assert forall|m: int| !(1 <= m < name.len() && name[m] == '.') by {
                if 1 <= m < name.len() {
                    assert(name[m] == path@[j + m]);
                }
            }
        }
        return false;
    }
    proof {
        assert(name[k - 1 - j] == path@[k - 1]);
        assert(1 <= k - 1 - j < name.len());
        assert(spec_extension(path@) == Some(path@.skip(k as int)));
    }
    let ext = path.substring_char(k, n);
    proof {
        assert(ext@ =~= path@.skip(k as int));
    }
    let r = eq_lower_str(ext, "jpg") || eq_lower_str(ext, "jpeg") || eq_lower_str(ext, "png")
        || eq_lower_str(ext, "gif") || eq_lower_str(ext, "bmp") || eq_lower_str(ext, "webp")
        || eq_lower_str(ext, "tiff") || eq_lower_str(ext, "mp4") || eq_lower_str(ext, "mkv")
        || eq_lower_str(ext, "avi") || eq_lower_str(ext, "mov") || eq_lower_str(ext, "wmv")
        || eq_lower_str(ext, "flv") || eq_lower_str(ext, "webm") || eq_lower_str(ext, "mp3")
        || eq_lower_str(ext, "wav") || eq_lower_str(ext, "flac") || eq_lower_str(ext, "ogg")
        || eq_lower_str(ext, "m4a") || eq_lower_str(ext, "aac");
    r
}

} // verus!
