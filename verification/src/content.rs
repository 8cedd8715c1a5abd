use crate::fs::{name_of_path, spec_name_of};
use vstd::prelude::*;
use vstd::string::{StrSliceExecFns, StringSliceAdditionalSpecFns};

verus! {

/// The content type that a guess from the given file name yields, with
/// application/octet-stream as the fallback.
pub uninterp spec fn mime_of(name: Seq<u8>) -> Seq<char>;

/// Relies on mime_guess::from_path together with Mime::to_string: the
/// guessed content type, falling back to application/octet-stream, is a
/// function of the file name alone.
#[verifier::external_body]
fn guess_content_type(name: &Vec<u8>) -> (r: String)
    ensures
        r@ == mime_of(name@),
{
    let name = String::from_utf8_lossy(name);
    mime_guess::from_path(name.as_ref()).first_or_octet_stream().to_string()
}

/// The name suggested for a downloaded file: the path's last segment, or a
/// placeholder when the path yields no name.
pub open spec fn spec_suggested_name(path: Seq<u8>) -> Seq<u8> {
    if spec_name_of(path).len() > 0 {
        spec_name_of(path)
    } else {
        "unnamed.bin".spec_bytes()
    }
}

/// The attachment Content-Disposition value naming the suggested file.
pub open spec fn spec_disposition(name: Seq<u8>) -> Seq<u8> {
    "attachment; filename=\"".spec_bytes() + name + "\"".spec_bytes()
}

/// The response metadata attached to downloaded bytes: the suggested file
/// name, the content type guessed from that name, and the
/// Content-Disposition attachment value.
pub struct DownloadMeta {
    pub filename: Vec<u8>,
    pub content_type: String,
    pub content_disposition: Vec<u8>,
}

fn append_all(dst: &mut Vec<u8>, src: &Vec<u8>)
    ensures
        final(dst)@ == old(dst)@ + src@,
{
    let mut i: usize = 0;
    while i < src.len()
        invariant
            i <= src@.len(),
            dst@ =~= old(dst)@ + src@.take(i as int),
        decreases src@.len() - i,
    {
        let b = src[i];
        dst.push(b);
        i = i + 1;
        proof {
            assert(dst@ =~= old(dst)@ + src@.take(i as int));
        }
    }
    proof {
        assert(src@.take(src@.len() as int) =~= src@);
    }
}

/// Builds the download response metadata for a file path: the suggested
/// name is the path's last segment (or a placeholder for an empty name),
/// the content type is guessed from that name, and the Content-Disposition
/// value names it as an attachment.
pub fn download_meta(path: &Vec<u8>) -> (r: DownloadMeta)
    ensures
        r.filename@ == spec_suggested_name(path@),
        r.content_type@ == mime_of(spec_suggested_name(path@)),
        r.content_disposition@ == spec_disposition(spec_suggested_name(path@)),
{
    let name = name_of_path(path);
    let filename = if name.len() > 0 {
        name
    } else {
        "unnamed.bin".as_bytes_vec()
    };
    let content_type = guess_content_type(&filename);
    let mut content_disposition = "attachment; filename=\"".as_bytes_vec();
    append_all(&mut content_disposition, &filename);
    let quote = "\"".as_bytes_vec();
    append_all(&mut content_disposition, &quote);
    DownloadMeta { filename, content_type, content_disposition }
}

} // verus!
