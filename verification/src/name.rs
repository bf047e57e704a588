use vstd::prelude::*;

verus! {

/// The name of the output file for one element: the array path, the ID path
/// and the element's ID joined by dashes, followed by the extension.  The
/// name is a pure function of the four inputs, so equal inputs always give
/// equal names; none of the inputs is sanitized.
pub open spec fn filename_spec(
    array_path: Seq<char>,
    id_path: Seq<char>,
    id: Seq<char>,
    ext: Seq<char>,
) -> Seq<char> {
    array_path + seq!['-'] + id_path + seq!['-'] + id + ext
}

/// Builds the output file name, exactly as [`filename_spec`] describes.
pub fn filename(array_path: &str, id_path: &str, id: &str, ext: &str) -> (r: String)
    ensures
        r@ == filename_spec(array_path@, id_path@, id@, ext@),
{
    let mut r = String::from_str(array_path);
    crate::render::push_char(&mut r, '-');
    r.append(id_path);
    crate::render::push_char(&mut r, '-');
    r.append(id);
    r.append(ext);
    proof {
        assert(r@ =~= filename_spec(array_path@, id_path@, id@, ext@));
    }
    r
}

} // verus!
