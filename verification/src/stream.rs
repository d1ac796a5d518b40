//! The frame stream decoder: walks a cartridge's frames in order, reassembles
//! the hidden byte stream one pixel pair at a time, splits off the 4-byte
//! big-endian length header, and stops as soon as the declared body length is
//! satisfied.
//!
//! Decoding is modelled as a state machine over frames: `ReadingHeader` (the
//! first 8 pixel positions of the first frame), `ReadingBody` (carrying the
//! count of body bytes still owed), and the terminal `Done`.  [`step_frame`]
//! is the specification of one frame's worth of work, [`run_frames`] folds it
//! over a frame sequence, and [`StreamDecoder`] is the verified executable
//! counterpart.

use vstd::prelude::*;

use crate::cart::CartError;
use crate::color::byte;
use crate::color::byte_of;
use crate::color::pair_in_range;
use crate::color::pixel_ok;

verus! {

/// One frame of the cartridge: a buffer of pixel indices and, optionally, a
/// frame-local palette that overrides the container-wide one.
pub struct Frame {
    /// Pixel indices, row by row.
    pub buffer: Vec<u8>,
    /// The frame's own palette, if it carries one.
    pub palette: Option<Vec<u8>>,
}

/// The mathematical value of a [`Frame`].
pub ghost struct FrameV {
    /// Pixel indices.
    pub buffer: Seq<u8>,
    /// The frame-local palette, if any.
    pub palette: Option<Seq<u8>>,
}

/// The mathematical value of an optional palette.
pub open spec fn palette_view(p: Option<Vec<u8>>) -> Option<Seq<u8>> {
    match p {
        Some(v) => Some(v@),
        None => None,
    }
}

impl View for Frame {
    type V = FrameV;

    open spec fn view(&self) -> FrameV {
        FrameV { buffer: self.buffer@, palette: palette_view(self.palette) }
    }
}

/// The mathematical values of a sequence of frames.
pub open spec fn views_of(frames: Seq<Frame>) -> Seq<FrameV> {
    frames.map_values(|f: Frame| f@)
}

/// The palette a frame's pixels are read against: the frame's own palette when
/// it has one, else the container-wide palette; none when neither exists.
pub open spec fn effective_palette(local: Option<Seq<u8>>, global: Option<Seq<u8>>) -> Option<
    Seq<u8>,
> {
    match local {
        Some(p) => Some(p),
        None => global,
    }
}

/// Both pixels of the pair that hides byte number `j` of the frame resolve
/// against palette `pal`.
pub open spec fn pair_ok_at(buf: Seq<u8>, pal: Seq<u8>, j: int) -> bool {
    pair_in_range(buf, pal, 2 * j)
}

/// Every pixel pair hiding byte numbers `lo..hi` of the frame resolves.
pub open spec fn range_ok(buf: Seq<u8>, pal: Seq<u8>, lo: int, hi: int) -> bool {
    forall|j: int| lo <= j < hi ==> pair_ok_at(buf, pal, j)
}

/// The bytes hidden at byte positions `lo..hi` of one frame.
pub open spec fn stream_slice(buf: Seq<u8>, pal: Seq<u8>, lo: int, hi: int) -> Seq<u8> {
    Seq::new((hi - lo) as nat, |t: int| byte_of(buf, pal, 2 * (lo + t)))
}

/// The whole byte stream hidden in one frame: one byte per full pixel pair.
pub open spec fn frame_bytes(buf: Seq<u8>, pal: Seq<u8>) -> Seq<u8> {
    stream_slice(buf, pal, 0, buf.len() as int / 2)
}

/// The value of four bytes read as a big-endian 32-bit integer.
pub open spec fn be32(b0: u8, b1: u8, b2: u8, b3: u8) -> int {
    0x100_0000 * b0 + 0x1_0000 * b1 + 0x100 * b2 + b3
}

/// The body length a frame's first four hidden bytes declare.
pub open spec fn header_len(buf: Seq<u8>, pal: Seq<u8>) -> int {
    be32(byte_of(buf, pal, 0), byte_of(buf, pal, 2), byte_of(buf, pal, 4), byte_of(buf, pal, 6))
}

/// The decoder's position in the payload: still reading the length header,
/// reading the body with `remaining` bytes owed, or finished.
#[derive(Clone, Copy, Debug, PartialEq, Eq, Structural)]
pub enum DecodeState {
    /// The first 8 pixel positions of the first frame are still to be read.
    ReadingHeader,
    /// The header has been read; `remaining` body bytes are still owed.
    ReadingBody {
        /// Body bytes still owed.
        remaining: u32,
    },
    /// The declared body length has been satisfied.
    Done,
}

/// What one frame contributes from byte position `start` on, with `remaining`
/// body bytes still owed: `min(remaining, pairs - start)` bytes are emitted,
/// and decoding errs if a consumed pixel pair cannot be resolved.
pub open spec fn consume(
    body: Seq<u8>,
    buf: Seq<u8>,
    pal: Seq<u8>,
    start: int,
    remaining: int,
) -> Result<(DecodeState, Seq<u8>), CartError> {
    let avail = vstd::math::max(buf.len() as int / 2 - start, 0);
    let t = vstd::math::min(remaining, avail);
    if !range_ok(buf, pal, start, start + t) {
        Err(CartError::PaletteError)
    } else {
        let st = if remaining - t == 0 {
            DecodeState::Done
        } else {
            DecodeState::ReadingBody { remaining: (remaining - t) as u32 }
        };
        Ok((st, body + stream_slice(buf, pal, start, start + t)))
    }
}

/// One transition of the frame stream decoder: what one frame does to the
/// state and the accumulated body.
///
/// * In `ReadingHeader` the frame must supply the whole 8-pixel header; the
///   four header bytes fix the declared body length, and the rest of the frame
///   already contributes body bytes.
/// * In `ReadingBody` the frame contributes up to `remaining` further bytes.
/// * `Done` consumes nothing.
pub open spec fn step_frame(
    st: DecodeState,
    body: Seq<u8>,
    fv: FrameV,
    global: Option<Seq<u8>>,
) -> Result<(DecodeState, Seq<u8>), CartError> {
    match st {
        DecodeState::Done => Ok((DecodeState::Done, body)),
        DecodeState::ReadingHeader => match effective_palette(fv.palette, global) {
            None => Err(CartError::PaletteError),
            Some(pal) => if fv.buffer.len() < 8 {
                Err(CartError::DecodingError)
            } else if !range_ok(fv.buffer, pal, 0, 4) {
                Err(CartError::PaletteError)
            } else {
                consume(body, fv.buffer, pal, 4, header_len(fv.buffer, pal))
            },
        },
        DecodeState::ReadingBody { remaining } => match effective_palette(fv.palette, global) {
            None => Err(CartError::PaletteError),
            Some(pal) => consume(body, fv.buffer, pal, 0, remaining as int),
        },
    }
}

/// The fold of [`step_frame`] over a sequence of frames.
pub open spec fn run_frames(
    st: DecodeState,
    body: Seq<u8>,
    frames: Seq<FrameV>,
    global: Option<Seq<u8>>,
) -> Result<(DecodeState, Seq<u8>), CartError>
    decreases frames.len(),
{
    if frames.len() == 0 {
        Ok((st, body))
    } else {
        match step_frame(st, body, frames[0], global) {
            Ok(sb) => run_frames(sb.0, sb.1, frames.drop_first(), global),
            Err(e) => Err(e),
        }
    }
}

/// The byte stream a whole cartridge decodes to: the body bytes that remain
/// after running the state machine over every frame from the initial state.
pub open spec fn decode_result(frames: Seq<FrameV>, global: Option<Seq<u8>>) -> Result<
    Seq<u8>,
    CartError,
> {
    match run_frames(DecodeState::ReadingHeader, Seq::empty(), frames, global) {
        Ok(sb) => Ok(sb.1),
        Err(e) => Err(e),
    }
}

/// The fold of [`step_frame`] that stops consuming at `Done`, as the decoder
/// itself does: frames past the declared body length are never read, and a
/// read failure at the container's tail (`truncated`) only matters while the
/// declared length is not yet satisfied.
pub open spec fn run_stopping(
    st: DecodeState,
    body: Seq<u8>,
    frames: Seq<FrameV>,
    global: Option<Seq<u8>>,
    truncated: bool,
) -> Result<Seq<u8>, CartError>
    decreases frames.len(),
{
    if st is Done {
        Ok(body)
    } else if frames.len() == 0 {
        if truncated {
            Err(CartError::DecodingError)
        } else {
            Ok(body)
        }
    } else {
        match step_frame(st, body, frames[0], global) {
            Ok(sb) => run_stopping(sb.0, sb.1, frames.drop_first(), global, truncated),
            Err(e) => Err(e),
        }
    }
}

/// Stopping at `Done` changes nothing when the container's frame stream is
/// well terminated: the stopping run agrees with the plain fold over all
/// frames.
pub proof fn lemma_run_stopping_complete(
    st: DecodeState,
    body: Seq<u8>,
    frames: Seq<FrameV>,
    g: Option<Seq<u8>>,
)
    ensures
        run_stopping(st, body, frames, g, false) == (match run_frames(st, body, frames, g) {
            Ok(sb) => Ok::<Seq<u8>, CartError>(sb.1),
            Err(e) => Err(e),
        }),
    decreases frames.len(),
{
    if st is Done {
        lemma_done_is_terminal(body, frames, g);
    } else if frames.len() == 0 {
    } else {
        match step_frame(st, body, frames[0], g) {
            Ok(sb) => {
                lemma_run_stopping_complete(sb.0, sb.1, frames.drop_first(), g);
            },
            Err(_) => {},
        }
    }
}

/// The payload text of a byte stream: each byte read as one character.
pub open spec fn chars_of(bytes: Seq<u8>) -> Seq<char> {
    bytes.map_values(|b: u8| b as char)
}

/// Relies on String::push: appends the character at the end of the string.
#[verifier::external_body]
fn push_char(s: &mut String, c: char)
    ensures
        final(s)@ == old(s)@.push(c),
{
    s.push(c);
}

/// The verified frame stream decoder: feed it the cartridge's frames in order
/// and it accumulates the payload body, tracking the header/body boundary and
/// the declared length in its state.
pub struct StreamDecoder {
    /// The decoder's position in the payload.
    pub state: DecodeState,
    /// The body bytes emitted so far.
    pub body: Vec<u8>,
}

impl StreamDecoder {
    /// A fresh decoder, about to read the length header.
    pub fn new() -> (d: StreamDecoder)
        ensures
            d.state == DecodeState::ReadingHeader,
            d.body@ == Seq::<u8>::empty(),
    {
        StreamDecoder { state: DecodeState::ReadingHeader, body: Vec::new() }
    }

    /// Emits the bytes one frame contributes from byte position `start` on,
    /// checking each consumed pixel pair against the palette.
    fn consume_pairs(
        &mut self,
        buffer: &Vec<u8>,
        pal: &Vec<u8>,
        start: usize,
        remaining: u32,
    ) -> (r: Result<(), CartError>)
        requires
            start <= 4,
        ensures
            (match consume(old(self).body@, buffer@, pal@, start as int, remaining as int) {
                Ok(sb) => r is Ok && final(self).state == sb.0 && final(self).body@ == sb.1,
                Err(e) => r matches Err(e2) && e2 == e && final(self).state == DecodeState::Done,
            }),
    {
        let pairs: usize = buffer.len() / 2;
        let avail: usize = if start <= pairs {
            pairs - start
        } else {
            0
        };
        let t: usize = if (remaining as usize) < avail {
            remaining as usize
        } else {
            avail
        };
        let end: usize = start + t;
        let mut j: usize = start;
        while j < end
            invariant
                start <= j <= end,
                end == start + t,
                buffer@.len() <= usize::MAX,
                t as int == vstd::math::min(
                    remaining as int,
                    vstd::math::max(buffer@.len() as int / 2 - start, 0),
                ),
                end == start || 2 * end <= buffer@.len(),
                self.state == old(self).state,
                self.body@ == old(self).body@ + stream_slice(
                    buffer@,
                    pal@,
                    start as int,
                    j as int,
                ),
                forall|k: int| start <= k < j ==> pair_ok_at(buffer@, pal@, k),
            decreases end - j,
        {
            proof {
                assert(end != start);
                assert(2 * (j as int) + 1 < buffer@.len() as int);
            }
            let p1 = buffer[2 * j];
            let p2 = buffer[2 * j + 1];
            if !(pixel_ok(p1, pal.as_slice()) && pixel_ok(p2, pal.as_slice())) {
                self.state = DecodeState::Done;
                proof {
                    assert(!pair_ok_at(buffer@, pal@, j as int));
                    assert(!range_ok(buffer@, pal@, start as int, start as int + t as int));
                }
                return Err(CartError::PaletteError);
            }
            let b = byte(buffer.as_slice(), pal.as_slice(), 2 * j);
            self.body.push(b);
            proof {
                assert(stream_slice(buffer@, pal@, start as int, j as int + 1) =~= stream_slice(
                    buffer@,
                    pal@,
                    start as int,
                    j as int,
                ).push(byte_of(buffer@, pal@, 2 * (j as int))));
            }
            j = j + 1;
        }
        let rem2: u32 = remaining - (t as u32);
        if rem2 == 0 {
            self.state = DecodeState::Done;
        } else {
            self.state = DecodeState::ReadingBody { remaining: rem2 };
        }
        Ok(())
    }

    /// Feeds the next frame to the decoder: one [`step_frame`] transition.
    /// On an error the decoder is left in the terminal state.
    pub fn push_frame(&mut self, frame: &Frame, global: &Option<Vec<u8>>) -> (r: Result<(), CartError>)
        ensures
            (match step_frame(old(self).state, old(self).body@, frame@, palette_view(*global)) {
                Ok(sb) => r is Ok && final(self).state == sb.0 && final(self).body@ == sb.1,
                Err(e) => r matches Err(e2) && e2 == e && final(self).state == DecodeState::Done,
            }),
    {
        let st = self.state;
        match st {
            DecodeState::Done => Ok(()),
            DecodeState::ReadingHeader => {
                let pal = match effective(&frame.palette, global) {
                    Some(p) => p,
                    None => {
                        self.state = DecodeState::Done;
                        return Err(CartError::PaletteError);
                    },
                };
                if frame.buffer.len() < 8 {
                    self.state = DecodeState::Done;
                    return Err(CartError::DecodingError);
                }
                let ok0 = pixel_ok(frame.buffer[0], pal.as_slice()) && pixel_ok(
                    frame.buffer[1],
                    pal.as_slice(),
                );
                let ok1 = pixel_ok(frame.buffer[2], pal.as_slice()) && pixel_ok(
                    frame.buffer[3],
                    pal.as_slice(),
                );
                let ok2 = pixel_ok(frame.buffer[4], pal.as_slice()) && pixel_ok(
                    frame.buffer[5],
                    pal.as_slice(),
                );
                let ok3 = pixel_ok(frame.buffer[6], pal.as_slice()) && pixel_ok(
                    frame.buffer[7],
                    pal.as_slice(),
                );
                if !(ok0 && ok1 && ok2 && ok3) {
                    self.state = DecodeState::Done;
                    proof {
                        if range_ok(frame@.buffer, pal@, 0, 4) {
                            assert(pair_ok_at(frame@.buffer, pal@, 0));
                            assert(pair_ok_at(frame@.buffer, pal@, 1));
                            assert(pair_ok_at(frame@.buffer, pal@, 2));
                            assert(pair_ok_at(frame@.buffer, pal@, 3));
                        }
                    }
                    return Err(CartError::PaletteError);
                }
                proof {
                    assert forall|j: int| 0 <= j < 4 implies pair_ok_at(
                        frame@.buffer,
                        pal@,
                        j,
                    ) by {
                        assert(j == 0 || j == 1 || j == 2 || j == 3);
                    }
                }
                let b0 = byte(frame.buffer.as_slice(), pal.as_slice(), 0);
                let b1 = byte(frame.buffer.as_slice(), pal.as_slice(), 2);
                let b2 = byte(frame.buffer.as_slice(), pal.as_slice(), 4);
                let b3 = byte(frame.buffer.as_slice(), pal.as_slice(), 6);
                let size: u32 = (b0 as u32) * 0x100_0000 + (b1 as u32) * 0x1_0000 + (b2 as u32)
                    * 0x100 + (b3 as u32);
                proof {
                    assert(size as int == header_len(frame@.buffer, pal@));
                }
                self.consume_pairs(&frame.buffer, pal, 4, size)
            },
            DecodeState::ReadingBody { remaining } => {
                let pal = match effective(&frame.palette, global) {
                    Some(p) => p,
                    None => {
                        self.state = DecodeState::Done;
                        return Err(CartError::PaletteError);
                    },
                };
                self.consume_pairs(&frame.buffer, pal, 0, remaining)
            },
        }
    }

    /// The payload text assembled so far: each decoded body byte read as one
    /// character.
    pub fn into_payload(self) -> (s: String)
        ensures
            s@ == chars_of(self.body@),
    {
        let mut s = String::new();
        let mut i: usize = 0;
        while i < self.body.len()
            invariant
                i <= self.body@.len(),
                s@ == chars_of(self.body@.subrange(0, i as int)),
            decreases self.body@.len() - i,
        {
            let c = self.body[i] as char;
            push_char(&mut s, c);
            proof {
                assert(chars_of(self.body@.subrange(0, i as int + 1)) =~= chars_of(
                    self.body@.subrange(0, i as int),
                ).push(self.body@[i as int] as char));
            }
            i = i + 1;
        }
        proof {
            assert(self.body@.subrange(0, self.body@.len() as int) =~= self.body@);
        }
        s
    }
}

/// Resolves the palette a frame's pixels are read against: the frame's own
/// palette when it has one, else the container-wide palette.
pub fn effective<'a>(local: &'a Option<Vec<u8>>, global: &'a Option<Vec<u8>>) -> (r: Option<
    &'a Vec<u8>,
>)
    ensures
        (match r {
            Some(p) => effective_palette(palette_view(*local), palette_view(*global)) == Some(p@),
            None => effective_palette(palette_view(*local), palette_view(*global)) is None,
        }),
{
    match local {
        Some(p) => Some(p),
        None => match global {
            Some(g) => Some(g),
            None => None,
        },
    }
}

/// Decodes the payload body hidden in a sequence of frames read against the
/// given container-wide palette.  The result is exactly what the state machine
/// specification [`decode_result`] assigns to these frames.
pub fn decode_frames(frames: &Vec<Frame>, global: &Option<Vec<u8>>) -> (r: Result<String, CartError>)
    ensures
        (match decode_result(views_of(frames@), palette_view(*global)) {
            Ok(b) => r matches Ok(s) && s@ == chars_of(b),
            Err(e) => r matches Err(e2) && e2 == e,
        }),
{
    let mut dec = StreamDecoder::new();
    let mut i: usize = 0;
    while i < frames.len()
        invariant
            i <= frames@.len(),
            run_frames(
                DecodeState::ReadingHeader,
                Seq::<u8>::empty(),
                views_of(frames@.subrange(0, i as int)),
                palette_view(*global),
            ) == Ok::<(DecodeState, Seq<u8>), CartError>((dec.state, dec.body@)),
        decreases frames@.len() - i,
    {
        let res = dec.push_frame(&frames[i], global);
        proof {
            lemma_run_snoc(
                DecodeState::ReadingHeader,
                Seq::<u8>::empty(),
                views_of(frames@.subrange(0, i as int)),
                frames@[i as int]@,
                palette_view(*global),
            );
            assert(views_of(frames@.subrange(0, i as int + 1)) =~= views_of(
                frames@.subrange(0, i as int),
            ).push(frames@[i as int]@));
        }
        match res {
            Ok(()) => {},
            Err(e) => {
                proof {
                    assert(views_of(frames@).subrange(0, i as int + 1) =~= views_of(
                        frames@.subrange(0, i as int + 1),
                    ));
                    lemma_run_err_extend(
                        DecodeState::ReadingHeader,
                        Seq::<u8>::empty(),
                        views_of(frames@),
                        i as int + 1,
                        palette_view(*global),
                    );
                }
                return Err(e);
            },
        }
        i = i + 1;
    }
    proof {
        assert(frames@.subrange(0, frames@.len() as int) =~= frames@);
    }
    Ok(dec.into_payload())
}

/// Running the fold over one more frame at the end is one more step.
pub proof fn lemma_run_snoc(
    st: DecodeState,
    body: Seq<u8>,
    frames: Seq<FrameV>,
    fv: FrameV,
    g: Option<Seq<u8>>,
)
    ensures
        run_frames(st, body, frames.push(fv), g) == (match run_frames(st, body, frames, g) {
            Ok(sb) => step_frame(sb.0, sb.1, fv, g),
            Err(e) => Err(e),
        }),
    decreases frames.len(),
{
    if frames.len() == 0 {
        assert(frames.push(fv)[0] == fv);
        assert(frames.push(fv).drop_first() =~= Seq::<FrameV>::empty());
        assert(run_frames(st, body, frames, g) == Ok::<(DecodeState, Seq<u8>), CartError>(
            (st, body),
        ));
        match step_frame(st, body, fv, g) {
            Ok(sb) => {
                assert(sb == (sb.0, sb.1));
                assert(run_frames(sb.0, sb.1, frames.push(fv).drop_first(), g) == Ok::<
                    (DecodeState, Seq<u8>),
                    CartError,
                >((sb.0, sb.1)));
            },
            Err(_) => {},
        }
    } else {
        assert(frames.push(fv)[0] == frames[0]);
        assert(frames.push(fv).drop_first() =~= frames.drop_first().push(fv));
        match step_frame(st, body, frames[0], g) {
            Ok(sb) => {
                lemma_run_snoc(sb.0, sb.1, frames.drop_first(), fv, g);
            },
            Err(_) => {},
        }
    }
}

/// The number of body bytes a state still owes.
pub open spec fn rem_of(st: DecodeState) -> int {
    match st {
        DecodeState::ReadingBody { remaining } => remaining as int,
        _ => 0,
    }
}

/// The total number of pixel pairs a sequence of frames holds: the most bytes
/// it can hide.
pub open spec fn total_pairs(frames: Seq<FrameV>) -> int
    decreases frames.len(),
{
    if frames.len() == 0 {
        0
    } else {
        frames[0].buffer.len() as int / 2 + total_pairs(frames.drop_first())
    }
}

/// The body length the first frame's header declares, read against its
/// effective palette.
pub open spec fn declared_len(frames: Seq<FrameV>, g: Option<Seq<u8>>) -> int {
    match effective_palette(frames[0].palette, g) {
        Some(pal) => header_len(frames[0].buffer, pal),
        None => 0,
    }
}

/// Every pixel pair of the frame resolves against its effective palette.
pub open spec fn frame_pairs_ok(fv: FrameV, g: Option<Seq<u8>>) -> bool {
    match effective_palette(fv.palette, g) {
        Some(pal) => range_ok(fv.buffer, pal, 0, fv.buffer.len() as int / 2),
        None => false,
    }
}

/// Decoding is deterministic: any two decode outcomes of the same frames and
/// container palette are the same.
pub proof fn lemma_decode_deterministic(
    frames: Seq<FrameV>,
    g: Option<Seq<u8>>,
    r1: Result<Seq<u8>, CartError>,
    r2: Result<Seq<u8>, CartError>,
)
    requires
        r1 == decode_result(frames, g),
        r2 == decode_result(frames, g),
    ensures
        r1 == r2,
{
}

/// `Done` is terminal: frames after the declared body length has been
/// satisfied change neither the state nor the body.
pub proof fn lemma_done_is_terminal(body: Seq<u8>, frames: Seq<FrameV>, g: Option<Seq<u8>>)
    ensures
        run_frames(DecodeState::Done, body, frames, g) == Ok::<(DecodeState, Seq<u8>), CartError>(
            (DecodeState::Done, body),
        ),
    decreases frames.len(),
{
    if frames.len() > 0 {
        lemma_done_is_terminal(body, frames.drop_first(), g);
    }
}

/// One byte per full pixel pair: a frame of `n` pixels hides exactly `n / 2`
/// payload bytes, and an odd trailing pixel hides none.
pub proof fn lemma_pixel_pairing(buf: Seq<u8>, pal: Seq<u8>)
    ensures
        frame_bytes(buf, pal).len() == buf.len() as int / 2,
{
}

proof fn lemma_total_pairs_nonneg(frames: Seq<FrameV>)
    ensures
        total_pairs(frames) >= 0,
    decreases frames.len(),
{
    if frames.len() > 0 {
        lemma_total_pairs_nonneg(frames.drop_first());
    }
}

/// Pixel-pairing invariant for whole runs: a successful run that starts past
/// the header emits exactly one byte per consumed pixel pair, that is
/// `min(remaining, total pixel pairs)` bytes in all.
pub proof fn lemma_emitted_length(
    st: DecodeState,
    body: Seq<u8>,
    frames: Seq<FrameV>,
    g: Option<Seq<u8>>,
)
    requires
        !(st is ReadingHeader),
    ensures
        (run_frames(st, body, frames, g) matches Ok(sb) ==> sb.1.len() == body.len()
            + vstd::math::min(rem_of(st), total_pairs(frames))),
    decreases frames.len(),
{
    lemma_total_pairs_nonneg(frames);
    if frames.len() == 0 {
    } else {
        lemma_total_pairs_nonneg(frames.drop_first());
        match step_frame(st, body, frames[0], g) {
            Ok(sb) => {
                lemma_emitted_length(sb.0, sb.1, frames.drop_first(), g);
            },
            Err(_) => {},
        }
    }
}

/// Header invariant: on a successful decode the body holds exactly as many
/// bytes as the header declares, bounded above by the body bytes the frames
/// actually hold.
pub proof fn lemma_header_governs_length(frames: Seq<FrameV>, g: Option<Seq<u8>>)
    requires
        frames.len() > 0,
        decode_result(frames, g) is Ok,
    ensures
        decode_result(frames, g)->Ok_0.len() == vstd::math::min(
            declared_len(frames, g),
            total_pairs(frames) - 4,
        ),
{
    let fv0 = frames[0];
    let rest = frames.drop_first();
    lemma_total_pairs_nonneg(rest);
    assert(step_frame(DecodeState::ReadingHeader, Seq::empty(), fv0, g) is Ok);
    let pal = effective_palette(fv0.palette, g)->Some_0;
    let decl = header_len(fv0.buffer, pal);
    let p0 = fv0.buffer.len() as int / 2;
    let sb1 = step_frame(DecodeState::ReadingHeader, Seq::empty(), fv0, g)->Ok_0;
    let t = vstd::math::min(decl, p0 - 4);
    assert(sb1.1.len() == t && rem_of(sb1.0) == decl - t && !(sb1.0 is ReadingHeader));
    lemma_emitted_length(sb1.0, sb1.1, rest, g);
}

proof fn lemma_run_ok(st: DecodeState, body: Seq<u8>, frames: Seq<FrameV>, g: Option<Seq<u8>>)
    requires
        !(st is ReadingHeader),
        forall|k: int| 0 <= k < frames.len() ==> frame_pairs_ok(#[trigger] frames[k], g),
    ensures
        run_frames(st, body, frames, g) is Ok,
    decreases frames.len(),
{
    if frames.len() > 0 {
        let fv0 = frames[0];
        assert(frame_pairs_ok(fv0, g));
        match step_frame(st, body, fv0, g) {
            Ok(sb) => {
                assert forall|k: int| 0 <= k < frames.drop_first().len() implies frame_pairs_ok(
                    #[trigger] frames.drop_first()[k],
                    g,
                ) by {
                    assert(frames.drop_first()[k] == frames[k + 1]);
                }
                lemma_run_ok(sb.0, sb.1, frames.drop_first(), g);
            },
            Err(_) => {
                assert(false);
            },
        }
    }
}

/// Truncation is not an error: a container whose pixels all resolve decodes
/// successfully even when its frames hold fewer body bytes than the header
/// declares; the partial body is returned as-is.
pub proof fn lemma_truncation_not_error(frames: Seq<FrameV>, g: Option<Seq<u8>>)
    requires
        frames.len() > 0,
        frames[0].buffer.len() >= 8,
        forall|k: int| 0 <= k < frames.len() ==> frame_pairs_ok(#[trigger] frames[k], g),
    ensures
        decode_result(frames, g) is Ok,
{
    let fv0 = frames[0];
    assert(frame_pairs_ok(fv0, g));
    match step_frame(DecodeState::ReadingHeader, Seq::empty(), fv0, g) {
        Ok(sb) => {
            assert forall|k: int| 0 <= k < frames.drop_first().len() implies frame_pairs_ok(
                #[trigger] frames.drop_first()[k],
                g,
            ) by {
                assert(frames.drop_first()[k] == frames[k + 1]);
            }
            lemma_run_ok(sb.0, sb.1, frames.drop_first(), g);
        },
        Err(_) => {
            assert(false);
        },
    }
}

/// A header that declares a zero-length body yields an empty body: nothing
/// after the 8 header pixels is emitted.
pub proof fn lemma_zero_declared_empty(frames: Seq<FrameV>, g: Option<Seq<u8>>)
    requires
        frames.len() > 0,
        decode_result(frames, g) is Ok,
        declared_len(frames, g) == 0,
    ensures
        decode_result(frames, g)->Ok_0 == Seq::<u8>::empty(),
{
    lemma_header_governs_length(frames, g);
    let rest = frames.drop_first();
    lemma_total_pairs_nonneg(rest);
    assert(step_frame(DecodeState::ReadingHeader, Seq::empty(), frames[0], g) is Ok);
    assert(decode_result(frames, g)->Ok_0.len() == 0);
    assert(decode_result(frames, g)->Ok_0 =~= Seq::<u8>::empty());
}

/// Once a prefix of the frames errs, the whole sequence errs the same way.
pub proof fn lemma_run_err_extend(
    st: DecodeState,
    body: Seq<u8>,
    frames: Seq<FrameV>,
    k: int,
    g: Option<Seq<u8>>,
)
    requires
        0 <= k <= frames.len(),
        run_frames(st, body, frames.subrange(0, k), g) is Err,
    ensures
        run_frames(st, body, frames, g) == run_frames(st, body, frames.subrange(0, k), g),
    decreases frames.len() - k,
{
    if k == frames.len() {
        assert(frames.subrange(0, k) =~= frames);
    } else {
        lemma_run_snoc(st, body, frames.subrange(0, k), frames[k], g);
        assert(frames.subrange(0, k).push(frames[k]) =~= frames.subrange(0, k + 1));
        lemma_run_err_extend(st, body, frames, k + 1, g);
    }
}

} // verus!
