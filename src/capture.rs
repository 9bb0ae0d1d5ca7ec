use vstd::prelude::*;
use crate::pixels::{bgra_to_rgba, fits_geometry, rgba_of};

verus! {

/// Why a capture produced no frame. Every one of them aborts the current tick
/// only; the next tick tries again.
#[derive(PartialEq, Eq, Structural, Clone, Copy, Debug)]
pub enum CaptureError {
    /// The display or the capture API failed.
    Unavailable,
    /// The display kept answering "not ready" until the attempts ran out.
    NotReady,
    /// The grab's size does not match the geometry it was taken with.
    BadFrame,
    /// The image could not be encoded.
    Encode,
}

/// How the display answered one request for its current contents.
#[derive(PartialEq, Eq, Structural, Clone, Copy, Debug)]
pub enum GrabOutcome {
    /// A grab is available.
    Ready,
    /// Nothing is available yet; asking again shortly may succeed.
    NotReady,
    /// Any other failure.
    Failed,
}

/// What a capture does after one request to the display.
#[derive(PartialEq, Eq, Structural, Clone, Copy, Debug)]
pub enum GrabStep {
    /// Convert and encode the grab that is available.
    Convert,
    /// Wait `GRAB_BACKOFF_MS` milliseconds and ask again.
    Retry,
    /// Stop and report the error.
    GiveUp(CaptureError),
}

/// The most requests one capture makes to the display.
pub const MAX_GRAB_ATTEMPTS: u32 = 200;

/// The pause, in milliseconds, between two requests to a display that was not ready.
pub const GRAB_BACKOFF_MS: u64 = 5;

/// The step after the `attempt`-th request to the display (counted from 1) came
/// back with `outcome`.
pub open spec fn grab_step_spec(attempt: u32, outcome: GrabOutcome) -> GrabStep {
    match outcome {
        GrabOutcome::Ready => GrabStep::Convert,
        GrabOutcome::Failed => GrabStep::GiveUp(CaptureError::Unavailable),
        GrabOutcome::NotReady => if attempt < MAX_GRAB_ATTEMPTS {
            GrabStep::Retry
        } else {
            GrabStep::GiveUp(CaptureError::NotReady)
        },
    }
}

/// Decides what a capture does after one request to the display: a "not ready"
/// answer is retried after a short pause, at most `MAX_GRAB_ATTEMPTS` requests
/// in all; any other failure is reported at once.
pub fn next_grab_step(attempt: u32, outcome: GrabOutcome) -> (r: GrabStep)
    ensures
        r == grab_step_spec(attempt, outcome),
{
    match outcome {
        GrabOutcome::Ready => GrabStep::Convert,
        GrabOutcome::Failed => GrabStep::GiveUp(CaptureError::Unavailable),
        GrabOutcome::NotReady => {
            if attempt < MAX_GRAB_ATTEMPTS {
                GrabStep::Retry
            } else {
                GrabStep::GiveUp(CaptureError::NotReady)
            }
        },
    }
}

/// A capture never retries past its bound: from the bound on, every answer ends it.
pub proof fn lemma_grab_retries_bounded(attempt: u32, outcome: GrabOutcome)
    requires
        attempt >= MAX_GRAB_ATTEMPTS,
    ensures
        grab_step_spec(attempt, outcome) != GrabStep::Retry,
{
}

/// The PNG file that repng's encoder writes for an 8-bit RGBA image of the
/// given width and height.
pub uninterp spec fn png_of(width: u32, height: u32, rgba: Seq<u8>) -> Seq<u8>;

/// The eight bytes that open every PNG file.
pub open spec fn png_signature() -> Seq<u8> {
    seq![0x89u8, 0x50, 0x4E, 0x47, 0x0D, 0x0A, 0x1A, 0x0A]
}

/// Relies on repng::encode, which writes the PNG file of an 8-bit RGBA image
/// into a sink, the PNG signature first; its only errors are the sink's, and
/// writing into a `Vec` does not fail. It panics unless `width` is positive and
/// the image is a whole number of rows of `4 * width` bytes.
#[verifier::external_body]
fn png_encode(width: u32, height: u32, rgba: &Vec<u8>) -> (r: Result<Vec<u8>, CaptureError>)
    requires
        width > 0,
        rgba@.len() as int % (4 * width as int) == 0,
    ensures
        match r {
            Ok(bytes) => bytes@ == png_of(width, height, rgba@) && bytes@.len() >= 8
                && bytes@.subrange(0, 8) == png_signature(),
            Err(_) => false,
        },
{
    let mut cursor = std::io::Cursor::new(Vec::new());
    match repng::encode(&mut cursor, width, height, rgba.as_slice()) {
        Ok(()) => Ok(cursor.into_inner()),
        Err(_) => Err(CaptureError::Encode),
    }
}

/// A grab of `width` by `height` pixels can be encoded: both sides are positive,
/// fit the encoder's 32-bit header fields, and every row has room for its pixels.
pub open spec fn encodable(raw: Seq<u8>, width: usize, height: usize) -> bool {
    width > 0 && width <= u32::MAX && height <= u32::MAX
        && fits_geometry(raw, width as int, height as int)
}

/// Turns a BGRA screen grab into one encoded frame: the PNG file of the RGBA
/// image that the grab shows. A grab whose size does not match the geometry is
/// refused with `BadFrame`; every other grab is encoded.
pub fn encode_frame(raw: &[u8], width: usize, height: usize) -> (r: Result<Vec<u8>, CaptureError>)
    ensures
        match r {
            Ok(frame) => encodable(raw@, width, height) && frame@ == png_of(
                width as u32,
                height as u32,
                rgba_of(raw@, width as int, height as int),
            ) && frame@.len() >= 8 && frame@.subrange(0, 8) == png_signature(),
            Err(e) => e == CaptureError::BadFrame && !encodable(raw@, width, height),
        },
{
    if width == 0 || height == 0 || width > 0xffff_ffffusize || height > 0xffff_ffffusize {
        return Err(CaptureError::BadFrame);
    }
    if width > raw.len() / height / 4 {
        return Err(CaptureError::BadFrame);
    }
    let rgba = bgra_to_rgba(raw, width, height);
    proof {
        let w = width as int;
        let h = height as int;
        assert(4 * w * h == h * (4 * w)) by (nonlinear_arith);
        vstd::arithmetic::div_mod::lemma_mod_multiples_basic(h, 4 * w);
    }
    png_encode(width as u32, height as u32, &rgba)
}

} // verus!
