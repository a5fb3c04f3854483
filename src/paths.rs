//! Where the annotated copy of an image goes: an `outputs` directory beside it.
use vstd::prelude::*;
use vstd::string::StringExecFns;
use crate::text::{last_index_of, split_first, split_last};

verus! {

/// Destination of the annotated copy of one image.
pub struct OutputLocation {
    /// Directory that receives the copy; created before the copy is written.
    pub directory: String,
    /// Full path of the copy.
    pub file_path: String,
}

/// The text appended to an image's directory to name its output directory.
pub open spec fn outputs_suffix() -> Seq<char> {
    seq!['/', 'o', 'u', 't', 'p', 'u', 't', 's']
}

/// Output directory used for an image path that names no directory.
pub open spec fn fallback_directory() -> Seq<char> {
    seq!['o', 'u', 't', 'p', 'u', 't']
}

/// The file name of path `p`: what follows its last `/`, or all of it.
pub open spec fn file_name(p: Seq<char>) -> Seq<char> {
    p.subrange(last_index_of(p, '/') + 1, p.len() as int)
}

/// The output directory of image path `p`: `<dir>/outputs` where `p` is `<dir>/<name>`,
/// and `output` where `p` holds no `/`.
pub open spec fn output_directory(p: Seq<char>) -> Seq<char> {
    let k = last_index_of(p, '/');
    if k >= 0 {
        p.subrange(0, k) + outputs_suffix()
    } else {
        fallback_directory()
    }
}

/// The output file of image path `p`: its file name inside its output directory.
pub open spec fn output_file(p: Seq<char>) -> Seq<char> {
    output_directory(p) + seq!['/'] + file_name(p)
}

/// Derives the output directory and file of an image path. The file name is kept
/// also where the path names no directory.
pub fn resolve_output(image_path: &str) -> (r: OutputLocation)
    ensures
        r.directory@ == output_directory(image_path@),
        r.file_path@ == output_file(image_path@),
{
    proof {
        reveal_strlit("/outputs");
        reveal_strlit("output");
        reveal_strlit("/");
    }
    let mut directory;
    let name;
    match split_last(image_path, '/') {
        Some((dir, rest)) => {
            directory = String::from_str(dir);
            directory.append("/outputs");
            name = rest;
            proof {
                assert(image_path@.subrange(0, dir@.len() as int) =~= dir@);
                assert(image_path@.subrange(dir@.len() as int + 1, image_path@.len() as int) =~= rest@);
            }
        },
        None => {
            directory = String::from_str("output");
            name = image_path;
            proof {
                assert(image_path@.subrange(0, image_path@.len() as int) =~= image_path@);
            }
        },
    }
    let file_path = directory.clone().concat("/").concat(name);
    proof {
        assert(directory@ =~= output_directory(image_path@));
        assert(file_path@ =~= output_file(image_path@));
    }
    OutputLocation { directory, file_path }
}

/// Path `p` with every `\\` written as `/`.
pub open spec fn with_forward_slashes(p: Seq<char>) -> Seq<char> {
    p.map_values(|c: char| if c == '\\' { '/' } else { c })
}

/// Writes every backslash of `path` as a forward slash, so that paths listed on any
/// platform split at `/`.
pub fn normalize_separators(path: &str) -> (r: String)
    ensures
        r@ == with_forward_slashes(path@),
{
    let mut out = String::new();
    let mut rest: &str = path;
    loop
        invariant_except_break
            with_forward_slashes(path@) == out@ + with_forward_slashes(rest@),
        ensures
            with_forward_slashes(path@) == out@,
        decreases rest@.len(),
    {
        match split_first(rest, '\\') {
            Some((head, tail)) => {
                let ghost old_out = out@;
                let ghost old_rest = rest@;
                out.append(head);
                out.append("/");
                rest = tail;
                proof {
                    reveal_strlit("/");
                    assert("/"@ =~= seq!['/']);
                    assert(out@ =~= old_out + head@ + seq!['/']);
                    assert(with_forward_slashes(head@) =~= head@);
                    assert(with_forward_slashes(old_rest) =~= with_forward_slashes(head@) + seq![
                        '/',
                    ] + with_forward_slashes(tail@));
                    assert(out@ + with_forward_slashes(rest@) =~= old_out + with_forward_slashes(
                        old_rest,
                    ));
                }
            },
            None => {
                out.append(rest);
                proof {
                    assert(with_forward_slashes(rest@) =~= rest@);
                }
                break;
            },
        }
    }
    out
}

} // verus!
