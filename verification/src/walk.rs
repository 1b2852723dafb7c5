//! The traversal engine's fixed file-selection policy, decided on a path
//! written with `/` separators: anything under a `.git` component, any
//! file named `.gitmodules`, and any file with a denylisted binary-prone
//! extension is excluded from the candidate set.

use crate::text::{bytes_eq, ends_with, ends_with_bytes, segs, split_segments};
use vstd::prelude::*;

verus! {

/// The bytes of the `.git` component name.
pub open spec fn dot_git() -> Seq<u8> {
    seq![46u8, 103u8, 105u8, 116u8]
}

/// The bytes of the `.gitmodules` file name.
pub open spec fn dot_gitmodules() -> Seq<u8> {
    seq![46u8, 103u8, 105u8, 116u8, 109u8, 111u8, 100u8, 117u8, 108u8, 101u8, 115u8]
}

/// The bytes of the `xlsx` extension.
pub open spec fn ext_xlsx() -> Seq<u8> {
    seq![120u8, 108u8, 115u8, 120u8]
}

/// The bytes of the `xlss` extension.
pub open spec fn ext_xlss() -> Seq<u8> {
    seq![120u8, 108u8, 115u8, 115u8]
}

/// The components of a path: its segments between `/` separators.
pub open spec fn path_components(p: Seq<u8>) -> Seq<Seq<u8>> {
    segs(p, 47u8)
}

/// Whether some component of `p` is exactly `c`.
pub open spec fn has_component(p: Seq<u8>, c: Seq<u8>) -> bool {
    exists|k: int| 0 <= k < path_components(p).len() && #[trigger] path_components(p)[k] == c
}

/// The file name of a path: its last component.
pub open spec fn file_name_of(p: Seq<u8>) -> Seq<u8> {
    path_components(p).last()
}

/// Whether a file name has the given extension: it ends in a dot and the
/// extension, and the dot is not its first byte (a leading dot starts a
/// hidden file's name, not an extension).
pub open spec fn has_extension(name: Seq<u8>, ext: Seq<u8>) -> bool {
    ends_with(name, seq![46u8] + ext) && name.len() > ext.len() + 1
}

/// Whether the traversal policy excludes `p`: a `.git` component
/// anywhere, the name `.gitmodules`, or a denylisted extension.
pub open spec fn skip_path_spec(p: Seq<u8>) -> bool {
    ||| has_component(p, dot_git())
    ||| file_name_of(p) == dot_gitmodules()
    ||| has_extension(file_name_of(p), ext_xlsx())
    ||| has_extension(file_name_of(p), ext_xlss())
}

/// Decides the fixed exclusion policy for a path with `/` separators.
pub fn should_skip_path(path: &[u8]) -> (r: bool)
    ensures
        r == skip_path_spec(path@),
{
    let comps = split_segments(path, 47u8);
    proof {
        crate::text::lemma_segs_len(path@, 47u8);
    }
    let git: Vec<u8> = vec![46u8, 103u8, 105u8, 116u8];
    proof {
        assert(git@ =~= dot_git());
    }
    let n = comps.len();
    let mut i: usize = 0;
    while i < n
        invariant
            n == comps@.len(),
            comps@.map_values(|l: Vec<u8>| l@) == path_components(path@),
            git@ == dot_git(),
            i <= n,
            forall|k: int| 0 <= k < i ==> #[trigger] path_components(path@)[k] != dot_git(),
        decreases n - i,
    {
        if bytes_eq(comps[i].as_slice(), git.as_slice()) {
            proof {
                assert(path_components(path@)[i as int] == dot_git());
            }
            return true;
        }
        i += 1;
    }
    proof {
        assert(!has_component(path@, dot_git()));
    }
    let name = comps[n - 1].as_slice();
    proof {
        assert(name@ == file_name_of(path@));
    }
    let modules: Vec<u8> = vec![
        46u8,
        103u8,
        105u8,
        116u8,
        109u8,
        111u8,
        100u8,
        117u8,
        108u8,
        101u8,
        115u8,
    ];
    proof {
        assert(modules@ =~= dot_gitmodules());
    }
    if bytes_eq(name, modules.as_slice()) {
        return true;
    }
    let dot_xlsx: Vec<u8> = vec![46u8, 120u8, 108u8, 115u8, 120u8];
    let dot_xlss: Vec<u8> = vec![46u8, 120u8, 108u8, 115u8, 115u8];
    proof {
        assert(dot_xlsx@ =~= seq![46u8] + ext_xlsx());
        assert(dot_xlss@ =~= seq![46u8] + ext_xlss());
    }
    if name.len() > 5 && ends_with_bytes(name, dot_xlsx.as_slice()) {
        return true;
    }
    if name.len() > 5 && ends_with_bytes(name, dot_xlss.as_slice()) {
        return true;
    }
    false
}

} // verus!
