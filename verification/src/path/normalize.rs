//! Separators of other platforms turned into slashes.

use vstd::prelude::*;

use crate::path::buf::PathBuf;
use crate::path::model::PathView;
use crate::path::ops;
use crate::path::syntax::{BACKSLASH, SLASH};
use crate::platform::Platform;

verus! {

/// Bytes with a slash for each backslash.
pub open spec fn with_slashes(b: Seq<u8>) -> Seq<u8> {
    b.map_values(|x: u8| if x == BACKSLASH { SLASH } else { x })
}

/// A path with `/` as its only separator. A Unix path has no other, and a Windows
/// path that is not UTF-8 becomes so by the replacement character.
pub open spec fn normalized(p: PathView) -> PathView {
    match p.platform {
        Platform::Unix => p,
        Platform::Windows => PathView {
            platform: p.platform,
            bytes: vstd::utf8::encode_utf8(ops::lossy_text(with_slashes(p.bytes))),
        },
    }
}

/// Normalizes a path to use `/` as a separator everywhere, also on platforms that
/// know other separators.
pub fn normalize_path(path: PathBuf) -> (r: PathBuf)
    ensures
        r@ == normalized(path@),
        vstd::utf8::valid_utf8(with_slashes(path@.bytes)) && path@.platform is Windows ==> r@.bytes
            == with_slashes(path@.bytes),
{
    match path.platform {
        Platform::Unix => path,
        Platform::Windows => {
            let mut out: Vec<u8> = Vec::new();
            let mut i: usize = 0;
            while i < path.bytes.len()
                invariant
                    i <= path.bytes@.len(),
                    out@ == with_slashes(path.bytes@).take(i as int),
                decreases path.bytes@.len() - i,
            {
                let x = path.bytes[i];
                out.push(if x == BACKSLASH { SLASH } else { x });
                proof {
                    assert(out@ =~= with_slashes(path.bytes@).take(i + 1));
                }
                i = i + 1;
            }
            proof {
                assert(out@ =~= with_slashes(path.bytes@));
                if vstd::utf8::valid_utf8(out@) {
                    vstd::utf8::decode_utf8_encode_utf8(out@);
                }
            }
            let slashed = PathBuf::from_bytes(path.platform, out);
            PathBuf::new(path.platform, slashed.to_string_lossy().as_str())
        },
    }
}

/// Turning backslashes into slashes leaves no backslash, and doing it again changes
/// nothing.
pub proof fn law_no_backslash_is_left(b: Seq<u8>)
    ensures
        forall|i: int| 0 <= i < with_slashes(b).len() ==> #[trigger] with_slashes(b)[i] != BACKSLASH,
        with_slashes(with_slashes(b)) == with_slashes(b),
{
    assert(with_slashes(with_slashes(b)) =~= with_slashes(b));
}

/// A Unix path stays as it is. A Windows path that is text keeps each of its bytes, but for a
/// slash in the place of each backslash.
pub proof fn law_only_backslashes_change(p: PathView)
    ensures
        p.platform is Unix ==> normalized(p) == p,
        normalized(p).platform == p.platform,
        with_slashes(p.bytes).len() == p.bytes.len(),
        forall|i: int|
            0 <= i < p.bytes.len() ==> #[trigger] with_slashes(p.bytes)[i] == if p.bytes[i] == 92 {
                47u8
            } else {
                p.bytes[i]
            },
{
}

} // verus!
