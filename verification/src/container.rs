//! Reading the image container: the GIF bitstream parser is an external
//! collaborator that yields, per frame, a pixel index buffer and an optional
//! local palette, plus a container-wide palette.  The gif crate reads
//! deterministically from the input byte slice, so what it yields is a
//! function of the bytes alone; [`gif_open_ok`], [`gif_global_palette`],
//! [`gif_frames`] and [`gif_truncated`] name those outcomes, and
//! [`container_decode`] pins down, over the names, exactly what
//! [`decode_octocart`] returns for every input.

use vstd::prelude::*;

use crate::cart::CartError;
use crate::stream::chars_of;
use crate::stream::decode_result;
use crate::stream::lemma_run_stopping_complete;
use crate::stream::palette_view;
use crate::stream::run_stopping;
use crate::stream::DecodeState;
use crate::stream::Frame;
use crate::stream::FrameV;
use crate::stream::StreamDecoder;

verus! {

/// The gif crate's error type, carried opaquely.
#[verifier::external_type_specification]
#[verifier::external_body]
pub struct ExGifDecodingError(gif::DecodingError);

/// The gif crate's decoder over the input bytes, held opaquely: Verus refuses
/// the `std::io::Read` bound on `gif::Decoder` itself.
#[verifier::external_body]
struct GifHandle<'a> {
    inner: gif::Decoder<&'a [u8]>,
}

/// An opened container: the gif crate's decoder together with the
/// mathematical record of which bytes it was opened over and how many frames
/// it has yielded, so that what it returns can be tied to the input.
struct GifReader<'a> {
    handle: GifHandle<'a>,
    /// The container bytes the decoder reads.
    input: Ghost<Seq<u8>>,
    /// How many frames have been yielded so far.
    pos: Ghost<int>,
}

/// Whether these bytes open as a GIF container at all.
pub uninterp spec fn gif_open_ok(bytes: Seq<u8>) -> bool;

/// The container-wide palette these bytes declare, if any.
pub uninterp spec fn gif_global_palette(bytes: Seq<u8>) -> Option<Seq<u8>>;

/// The frames the container in these bytes yields, in order, up to its clean
/// end or its first read failure.
pub uninterp spec fn gif_frames(bytes: Seq<u8>) -> Seq<FrameV>;

/// Whether reading on after the last yielded frame fails (a malformed tail)
/// rather than reporting a clean end of the image.
pub uninterp spec fn gif_truncated(bytes: Seq<u8>) -> bool;

/// Relies on gif::DecodeOptions::read_info, with the default indexed-pixel
/// output: it opens a decoder exactly when the bytes parse as a GIF screen
/// descriptor, reading nothing but the given slice.
#[verifier::external_body]
fn open_container(input: &[u8]) -> (r: Result<GifReader<'_>, gif::DecodingError>)
    ensures
        r is Ok <==> gif_open_ok(input@),
        (r matches Ok(d) ==> d.input@ == input@ && d.pos@ == 0),
{
    match gif::DecodeOptions::new().read_info(input) {
        Ok(inner) => Ok(
            GifReader {
                handle: GifHandle { inner },
                input: Ghost(arbitrary()),
                pos: Ghost(arbitrary()),
            },
        ),
        Err(e) => Err(e),
    }
}

/// Relies on gif::Decoder::global_palette: the container-wide palette, a
/// fixed part of the screen descriptor the decoder was opened over.
#[verifier::external_body]
fn container_palette(d: &GifReader<'_>) -> (r: Option<Vec<u8>>)
    ensures
        palette_view(r) == gif_global_palette(d.input@),
{
    match d.handle.inner.global_palette() {
        Some(p) => Some(p.to_vec()),
        None => None,
    }
}

/// Relies on gif::Decoder::read_next_frame: reading is deterministic over the
/// input bytes, so the `pos`-th read yields the `pos`-th of [`gif_frames`]
/// (buffer and local palette converted one for one), and the read after the
/// last frame reports either the clean end or, on a malformed tail, an error.
#[verifier::external_body]
fn next_frame<'a>(d: &mut GifReader<'a>) -> (r: Result<Option<Frame>, gif::DecodingError>)
    ensures
        final(d).input@ == old(d).input@,
        final(d).pos@ == old(d).pos@ + 1,
        (old(d).pos@ < gif_frames(old(d).input@).len() ==> (r matches Ok(Some(f)) && f@
            == gif_frames(old(d).input@)[old(d).pos@])),
        (old(d).pos@ == gif_frames(old(d).input@).len() && !gif_truncated(old(d).input@) ==> (
        r matches Ok(fo) && fo is None)),
        (old(d).pos@ == gif_frames(old(d).input@).len() && gif_truncated(old(d).input@)
            ==> r is Err),
{
    match d.handle.inner.read_next_frame() {
        Ok(Some(f)) => Ok(Some(Frame { buffer: f.buffer.to_vec(), palette: f.palette.clone() })),
        Ok(None) => Ok(None),
        Err(e) => Err(e),
    }
}

/// What a cartridge's bytes decode to: nothing if the container does not
/// open; otherwise the stopping run of the frame state machine over the
/// frames the container yields, against its container-wide palette, where a
/// malformed tail reached before the declared length is satisfied is a
/// container-decoding error.
pub open spec fn container_decode(bytes: Seq<u8>) -> Result<Seq<u8>, CartError> {
    if !gif_open_ok(bytes) {
        Err(CartError::DecodingError)
    } else {
        run_stopping(
            DecodeState::ReadingHeader,
            Seq::empty(),
            gif_frames(bytes),
            gif_global_palette(bytes),
            gif_truncated(bytes),
        )
    }
}

/// A container whose frame stream is well terminated decodes to exactly what
/// the frame-level state machine assigns to the frames it yields, so the
/// frame-level laws carry over to whole containers.
pub proof fn lemma_container_agrees_with_frames(bytes: Seq<u8>)
    ensures
        gif_open_ok(bytes) && !gif_truncated(bytes) ==> container_decode(bytes) == decode_result(
            gif_frames(bytes),
            gif_global_palette(bytes),
        ),
{
    if gif_open_ok(bytes) && !gif_truncated(bytes) {
        lemma_run_stopping_complete(
            DecodeState::ReadingHeader,
            Seq::empty(),
            gif_frames(bytes),
            gif_global_palette(bytes),
        );
    }
}

/// Decodes the payload text hidden in the raw bytes of a cartridge file.
///
/// The container is opened and its frames are handed, in order, to the
/// verified frame stream decoder; reading stops as soon as the declared body
/// length is satisfied.  The result is exactly [`container_decode`] of the
/// input: a container the GIF parser rejects - at opening, or at a frame read
/// before the declared length is satisfied - is a `DecodingError`, an
/// unresolvable pixel is a `PaletteError`, and on success the payload is the
/// decoded body, each byte as one character.
#[verifier::rlimit(50)]
pub fn decode_octocart(input: &[u8]) -> (r: Result<String, CartError>)
    ensures
        (match container_decode(input@) {
            Ok(b) => r matches Ok(s) && s@ == chars_of(b),
            Err(e) => r matches Err(e2) && e2 == e,
        }),
        (r matches Err(e) ==> e == CartError::DecodingError || e == CartError::PaletteError),
{
    let mut d = match open_container(input) {
        Ok(d) => d,
        Err(_) => {
            return Err(CartError::DecodingError);
        },
    };
    let global = container_palette(&d);
    let mut dec = StreamDecoder::new();
    proof {
        assert(gif_frames(input@).skip(0) =~= gif_frames(input@));
    }
    loop
        invariant_except_break
            0 <= d.pos@ <= gif_frames(input@).len(),
            container_decode(input@) == run_stopping(
                dec.state,
                dec.body@,
                gif_frames(input@).skip(d.pos@),
                gif_global_palette(input@),
                gif_truncated(input@),
            ),
        invariant
            d.input@ == input@,
            gif_open_ok(input@),
            palette_view(global) == gif_global_palette(input@),
        ensures
            container_decode(input@) == Ok::<Seq<u8>, CartError>(dec.body@),
        decreases gif_frames(input@).len() - d.pos@,
    {
        if dec.state == DecodeState::Done {
            proof {
                assert(container_decode(input@) == Ok::<Seq<u8>, CartError>(dec.body@));
            }
            break;
        }
        let ghost frames = gif_frames(input@);
        let ghost k = d.pos@;
        let fr = match next_frame(&mut d) {
            Ok(Some(f)) => f,
            Ok(None) => {
                proof {
                    assert(k == frames.len());
                    assert(frames.skip(k) =~= Seq::<FrameV>::empty());
                    assert(!gif_truncated(input@));
                    assert(container_decode(input@) == Ok::<Seq<u8>, CartError>(dec.body@));
                }
                break;
            },
            Err(_) => {
                proof {
                    assert(k == frames.len());
                    assert(frames.skip(k) =~= Seq::<FrameV>::empty());
                    assert(container_decode(input@) == Err::<Seq<u8>, CartError>(
                        CartError::DecodingError,
                    ));
                }
                return Err(CartError::DecodingError);
            },
        };
        let res = dec.push_frame(&fr, &global);
        proof {
            assert(frames.skip(k)[0] == frames[k]);
            assert(frames.skip(k).drop_first() =~= frames.skip(k + 1));
        }
        match res {
            Ok(()) => {},
            Err(e) => {
                return Err(e);
            },
        }
    }
    let ghost b = dec.body@;
    let s = dec.into_payload();
    Ok(s)
}

} // verus!
