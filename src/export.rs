//! Paths handed to the topology exporter: they must be valid Unicode and
//! free of NUL bytes to become C strings.

use vstd::prelude::*;

verus! {

/// Why a file path cannot be handed over.
#[derive(Clone, Copy, Debug, PartialEq, Eq, Structural, Hash)]
pub enum PathError {
    /// The path holds a NUL byte, which C strings cannot carry.
    ContainsNul,
    /// The path is not valid Unicode (UTF-8).
    NotUnicode,
}

/// Why exporting a topology to an XML file failed.
#[derive(Clone, Copy, Debug, PartialEq, Eq, Structural, Hash)]
pub enum XMLFileExportError {
    /// The requested file path cannot be handed over.
    PathError(PathError),
    /// The exporter failed for another reason, with this result code.
    HwlocError(i32),
}

impl From<PathError> for XMLFileExportError {
    fn from(e: PathError) -> (r: XMLFileExportError) {
        XMLFileExportError::PathError(e)
    }
}

impl vstd::std_specs::convert::FromSpecImpl<PathError> for XMLFileExportError {
    open spec fn obeys_from_spec() -> bool {
        true
    }

    open spec fn from_spec(e: PathError) -> XMLFileExportError {
        XMLFileExportError::PathError(e)
    }
}

/// Whether `bytes` are valid UTF-8, as `core::str::from_utf8` decides.
pub uninterp spec fn is_utf8(bytes: Seq<u8>) -> bool;

/// Relies on `core::str::from_utf8`: it accepts exactly the valid UTF-8
/// byte strings, and the empty one is valid.
#[verifier::external_body]
fn valid_utf8(bytes: &[u8]) -> (r: bool)
    ensures
        r == is_utf8(bytes@),
        bytes@.len() == 0 ==> r,
{
    core::str::from_utf8(bytes).is_ok()
}

/// The C string for a path whose bytes are `path`, given whether they are
/// valid Unicode: the bytes followed by a NUL terminator. Invalid Unicode is
/// reported first, then an inner NUL byte.
pub fn c_path_from(path: &[u8], unicode: bool) -> (r: Result<Vec<u8>, PathError>)
    ensures
        !unicode ==> r == Err::<Vec<u8>, PathError>(PathError::NotUnicode),
        unicode && path@.contains(0u8) ==> r == Err::<Vec<u8>, PathError>(PathError::ContainsNul),
        unicode && !path@.contains(0u8) ==> r.is_ok() && r.unwrap()@ == path@.push(0u8),
{
    if !unicode {
        return Err(PathError::NotUnicode);
    }
    let mut out: Vec<u8> = Vec::new();
    let mut k: usize = 0;
    while k < path.len()
        invariant
            unicode,
            k <= path@.len(),
            out@ == path@.take(k as int),
            forall|i: int| 0 <= i < k ==> path@[i] != 0u8,
        decreases path.len() - k,
    {
        let b = path[k];
        if b == 0 {
            proof {
                assert(path@[k as int] == 0u8);
            }
            return Err(PathError::ContainsNul);
        }
        out.push(b);
        proof {
            assert(path@.take(k + 1) =~= path@.take(k as int).push(b));
        }
        k = k + 1;
    }
    proof {
        assert(path@.take(k as int) =~= path@);
        assert(!path@.contains(0u8));
    }
    out.push(0u8);
    Ok(out)
}

/// Turns the bytes of a file path into a NUL-terminated C string, or says
/// why that cannot be done.
pub fn make_hwloc_path(path: &[u8]) -> (r: Result<Vec<u8>, PathError>)
    ensures
        !is_utf8(path@) ==> r == Err::<Vec<u8>, PathError>(PathError::NotUnicode),
        is_utf8(path@) && path@.contains(0u8) ==> r == Err::<Vec<u8>, PathError>(
            PathError::ContainsNul,
        ),
        is_utf8(path@) && !path@.contains(0u8) ==> r.is_ok() && r.unwrap()@ == path@.push(0u8),
{
    let unicode = valid_utf8(path);
    c_path_from(path, unicode)
}

} // verus!
