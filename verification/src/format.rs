//! Output file formats and the parameters of a finished write.

use vstd::prelude::*;
use vstd::string::StringSliceAdditionalSpecFns;

verus! {

/// The encodings a finished buffer can be written as.
#[derive(Clone, Copy, Debug, PartialEq, Eq, Structural)]
pub enum FileFormat {
    JPEG,
    TIFF,
    OpenEXR,
}

impl Default for FileFormat {
    fn default() -> (r: Self)
        ensures
            r == FileFormat::TIFF,
    {
        FileFormat::TIFF
    }
}

impl FileFormat {
    /// The canonical file-name extension of the format, in ASCII.
    pub fn to_extension(&self) -> (r: &str)
        ensures
            *self == FileFormat::JPEG ==> r@ == "jpg"@,
            *self == FileFormat::TIFF ==> r@ == "tif"@,
            *self == FileFormat::OpenEXR ==> r@ == "exr"@,
    {
        match self {
            FileFormat::JPEG => "jpg",
            FileFormat::TIFF => "tif",
            FileFormat::OpenEXR => "exr",
        }
    }

    /// Recognizes an extension, in either its short or long ASCII
    /// spelling.  Unknown extensions are rejected instead of aborting.
    pub fn from_extension(ext: &str) -> (r: Option<FileFormat>)
        ensures
            r == Some(FileFormat::JPEG) <==> (ext.spec_bytes() == seq![106u8, 112u8, 103u8]
                || ext.spec_bytes() == seq![106u8, 112u8, 101u8, 103u8]),
            r == Some(FileFormat::TIFF) <==> (ext.spec_bytes() == seq![116u8, 105u8, 102u8]
                || ext.spec_bytes() == seq![116u8, 105u8, 102u8, 102u8]),
            r == Some(FileFormat::OpenEXR) <==> ext.spec_bytes() == seq![101u8, 120u8, 114u8],
    {
        let b = ext.as_bytes();
        if bytes_match(b, &[106u8, 112u8, 103u8]) || bytes_match(b, &[106u8, 112u8, 101u8, 103u8]) {
            Some(FileFormat::JPEG)
        } else if bytes_match(b, &[116u8, 105u8, 102u8]) || bytes_match(b, &[116u8, 105u8, 102u8, 102u8]) {
            Some(FileFormat::TIFF)
        } else if bytes_match(b, &[101u8, 120u8, 114u8]) {
            Some(FileFormat::OpenEXR)
        } else {
            None
        }
    }
}

/// True exactly when the two byte strings are equal.
fn bytes_match(a: &[u8], b: &[u8]) -> (r: bool)
    ensures
        r <==> a@ == b@,
{
    if a.len() != b.len() {
        assert(a@ != b@) by {
            assert(a@.len() != b@.len());
        }
        return false;
    }
    let n = a.len();
    let mut i: usize = 0;
    while i < n
        invariant
            n == a@.len() == b@.len(),
            0 <= i <= n,
            forall|j: int| 0 <= j < i ==> a@[j] == b@[j],
        decreases n - i,
    {
        if a[i] != b[i] {
            return false;
        }
        i += 1;
    }
    assert(a@ =~= b@);
    true
}

/// Where and under what name a finished image is written.
pub struct OutputParams {
    /// Directory that receives the file.
    pub path: String,
    /// File name without its extension.
    pub file_name: String,
    /// Encoding of the written file.
    pub format: FileFormat,
}

impl Default for OutputParams {
    fn default() -> (r: Self)
        ensures
            r.path@ == Seq::<char>::empty(),
            r.file_name@ == Seq::<char>::empty(),
            r.format == FileFormat::TIFF,
    {
        OutputParams {
            path: String::new(),
            file_name: String::new(),
            format: FileFormat::TIFF,
        }
    }
}

} // verus!
