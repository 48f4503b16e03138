//! File naming: the source image's extension, and the destination file name
//! each monitor's crop is written to.

use vstd::prelude::*;

use crate::strings::lemma_split_len;
use crate::strings::spec_split;
use crate::strings::split_str;

verus! {

/// The part of a path after its last '.', or the whole path when it has
/// no '.'.
pub open spec fn spec_extension(path: Seq<char>) -> Seq<char> {
    let pieces = spec_split(path, seq!['.']);
    pieces[pieces.len() - 1]
}

/// Extracts the source image's extension, exactly as `spec_extension`
/// describes.
pub fn get_extension(image_path: &str) -> (extension: String)
    ensures
        extension@ == spec_extension(image_path@),
{
    proof {
        reveal_strlit(".");
        assert("."@ =~= seq!['.']);
        lemma_split_len(image_path@, seq!['.']);
    }
    let pieces = split_str(image_path, ".");
    let last = pieces.len() - 1;
    proof {
        assert(pieces@[last as int]@ == pieces.deep_view()[last as int]);
    }
    pieces[last].to_owned()
}

/// Builds the destination identifier a monitor's crop is written to: the
/// monitor's name, a dot, and the source image's extension.
pub fn output_file_name(name: &str, extension: &str) -> (file: String)
    ensures
        file@ == name@ + seq!['.'] + extension@,
{
    proof {
        reveal_strlit(".");
        assert("."@ =~= seq!['.']);
    }
    let mut file = name.to_owned();
    file.append(".");
    file.append(extension);
    proof {
        assert(name@ + "."@ + extension@ =~= name@ + seq!['.'] + extension@);
    }
    file
}

} // verus!
