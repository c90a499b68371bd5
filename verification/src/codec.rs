//! The pkt-line decoder and encoder pair for the Git wire protocol: a
//! stateful, resumable parser that reassembles one logical command from a
//! stream of arbitrarily chunked network bytes, and the matching encoder
//! for outbound pkt-line units.

use vstd::prelude::*;

use crate::error::Error;
use crate::low_level::spec_entries_sizes_ok;
use crate::packet_line::{spec_data_frames, spec_sideband_frames, PktLine};

verus! {

use vstd::string::StringSliceAdditionalSpecFns;
use vstd::utf8::valid_utf8;

use crate::low_level::spec_pack_file_bytes;

/// Encodes pkt-line units into a caller-supplied buffer.
pub struct Encoder;

impl Encoder {
    /// Appends the pkt-line frames of one unit to the destination buffer;
    /// the frames are stated by the unit's own encoder.
    pub fn encode(&mut self, item: PktLine<'_>, dst: &mut Vec<u8>) -> (r: Result<(), Error>)
        requires
            item matches PktLine::SidebandData(p) ==> spec_entries_sizes_ok(p.spec_entries()),
        ensures
            item matches PktLine::Data(d) ==> r == Ok::<(), Error>(()) && final(dst)@ == old(dst)@
                + spec_data_frames(d@),
            item matches PktLine::SidebandMsg(m) ==> r == Ok::<(), Error>(()) && final(dst)@
                == old(dst)@ + spec_sideband_frames(2, m@),
            item matches PktLine::SidebandData(p) ==> {
                &&& (r matches Ok(v) ==> p.spec_entries().len() <= u32::MAX && final(dst)@ == old(
                    dst,
                )@ + spec_sideband_frames(1, spec_pack_file_bytes(p.spec_entries())))
                &&& (r matches Err(e) ==> final(dst)@ == old(dst)@ && (e
                    == Error::EntriesExceedsU32(p.spec_entries().len() as usize) || e
                    == Error::CompressWrite || e == Error::Compress))
                &&& (p.spec_entries().len() > u32::MAX <==> r == Err::<(), Error>(
                    Error::EntriesExceedsU32(p.spec_entries().len() as usize),
                ))
            },
            item matches PktLine::Flush ==> r == Ok::<(), Error>(()) && final(dst)@ == old(dst)@
                + "0000".spec_bytes(),
            item matches PktLine::Delimiter ==> r == Ok::<(), Error>(()) && final(dst)@ == old(
                dst,
            )@ + "0001".spec_bytes(),
            item matches PktLine::ResponseEnd ==> r == Ok::<(), Error>(()) && final(dst)@ == old(
                dst,
            )@ + "0002".spec_bytes(),
    {
        item.encode_to(dst)
    }
}

/// One decoded logical command: the first payload of a flush-terminated
/// run of frames, and every later payload in arrival order.
#[derive(Debug, PartialEq, Eq)]
pub struct GitCommand {
    pub command: Vec<u8>,
    pub metadata: Vec<Vec<u8>>,
}

/// The mathematical value of a command accumulator.
pub struct CommandModel {
    pub command: Seq<u8>,
    pub metadata: Seq<Seq<u8>>,
}

/// The accumulator a decoder starts from and returns to after a flush.
pub open spec fn spec_empty_command() -> CommandModel {
    CommandModel { command: Seq::empty(), metadata: Seq::empty() }
}

impl View for GitCommand {
    type V = CommandModel;

    open spec fn view(&self) -> CommandModel {
        CommandModel { command: self.command@, metadata: self.metadata.deep_view() }
    }
}

impl Default for GitCommand {
    fn default() -> (r: Self)
        ensures
            r@ == spec_empty_command(),
    {
        let r = GitCommand { command: Vec::new(), metadata: Vec::new() };
        proof {
            assert(r@.metadata =~= Seq::<Seq<u8>>::empty());
        }
        r
    }
}

/// True of the bytes `0` to `9`, `a` to `f` and `A` to `F`.
pub open spec fn spec_is_hex_digit(b: u8) -> bool {
    (48 <= b <= 57) || (97 <= b <= 102) || (65 <= b <= 70)
}

/// The value of one hexadecimal digit byte.
pub open spec fn spec_hex_val(b: u8) -> u8
    recommends
        spec_is_hex_digit(b),
{
    if 48 <= b <= 57 {
        (b - 48) as u8
    } else if 97 <= b {
        (b - 87) as u8
    } else {
        (b - 55) as u8
    }
}

/// How the four length bytes of a frame parse as an unsigned 16-bit
/// hexadecimal number: four hex digits, or a plus sign and three hex
/// digits. Anything else is rejected.
pub open spec fn spec_parse_len(four: Seq<u8>) -> Option<u16>
    recommends
        four.len() == 4,
{
    if spec_is_hex_digit(four[0]) && spec_is_hex_digit(four[1]) && spec_is_hex_digit(four[2])
        && spec_is_hex_digit(four[3]) {
        Some(
            (spec_hex_val(four[0]) * 0x1000 + spec_hex_val(four[1]) * 0x100 + spec_hex_val(
                four[2],
            ) * 0x10 + spec_hex_val(four[3])) as u16,
        )
    } else if four[0] == 43 && spec_is_hex_digit(four[1]) && spec_is_hex_digit(four[2])
        && spec_is_hex_digit(four[3]) {
        Some(
            (spec_hex_val(four[1]) * 0x100 + spec_hex_val(four[2]) * 0x10 + spec_hex_val(
                four[3],
            )) as u16,
        )
    } else {
        None
    }
}

/// A frame payload with at most one trailing line feed removed.
pub open spec fn spec_strip_newline(payload: Seq<u8>) -> Seq<u8> {
    if payload.len() > 0 && payload.last() == 10 {
        payload.drop_last()
    } else {
        payload
    }
}

/// A payload recorded into the accumulator: the first payload becomes the
/// command, every later one is appended to the metadata.
pub open spec fn spec_accumulate(state: CommandModel, payload: Seq<u8>) -> CommandModel {
    if state.command.len() == 0 {
        CommandModel { command: payload, metadata: state.metadata }
    } else {
        CommandModel { command: state.command, metadata: state.metadata.push(payload) }
    }
}

/// What one decoder invocation does with an accumulator and the buffered
/// bytes.
pub enum DecodeOutcome {
    /// Not enough bytes for the next step: the accumulator and the
    /// unconsumed bytes are kept for the next invocation.
    NeedMore { state: CommandModel, rest: Seq<u8> },
    /// A flush arrived: the finalized command is handed out and the
    /// accumulator is reset.
    Complete { cmd: CommandModel, rest: Seq<u8> },
    /// The stream is corrupt or non-conformant; the offending frame is
    /// left unconsumed.
    Failed { err: Error, state: CommandModel, rest: Seq<u8> },
}

/// The decoder state machine. Each step reads a four-byte hexadecimal
/// length. Zero is a flush and completes the command; one and two are
/// control markers, consumed without being recorded; values outside four
/// to 65520 are a protocol violation; otherwise the frame's payload, with
/// at most one trailing line feed removed, is recorded and decoding
/// continues.
pub open spec fn spec_decode(state: CommandModel, buf: Seq<u8>) -> DecodeOutcome
    decreases buf.len(),
{
    if buf.len() < 4 {
        DecodeOutcome::NeedMore { state, rest: buf }
    } else if !valid_utf8(buf.subrange(0, 4)) {
        DecodeOutcome::Failed { err: Error::ParseLengthBytes, state, rest: buf }
    } else {
        match spec_parse_len(buf.subrange(0, 4)) {
            None => DecodeOutcome::Failed { err: Error::ParseLengthAsHex, state, rest: buf },
            Some(len) => {
                if len == 0 {
                    DecodeOutcome::Complete { cmd: state, rest: buf.skip(4) }
                } else if len == 1 || len == 2 {
                    spec_decode(state, buf.skip(4))
                } else if len < 4 || len > 65520 {
                    DecodeOutcome::Failed {
                        err: Error::PacketLengthExceedsSpec {
                            min: 4,
                            max: 65520,
                            found: len as usize,
                        },
                        state,
                        rest: buf,
                    }
                } else if buf.len() < len {
                    DecodeOutcome::NeedMore { state, rest: buf }
                } else {
                    spec_decode(
                        spec_accumulate(
                            state,
                            spec_strip_newline(buf.subrange(4, len as int)),
                        ),
                        buf.skip(len as int),
                    )
                }
            },
        }
    }
}

/// Relies on core::str::from_utf8, which accepts exactly the valid UTF-8
/// byte sequences.
#[verifier::external_body]
fn utf8_check(bytes: &[u8]) -> (r: bool)
    ensures
        r == valid_utf8(bytes@),
{
    core::str::from_utf8(bytes).is_ok()
}

/// The value of one hexadecimal digit byte, or nothing for any other byte.
fn hex_val(b: u8) -> (r: Option<u8>)
    ensures
        r == if spec_is_hex_digit(b) {
            Some(spec_hex_val(b))
        } else {
            None::<u8>
        },
        r matches Some(v) ==> v < 16,
{
    if 48 <= b && b <= 57 {
        Some(b - 48)
    } else if 97 <= b && b <= 102 {
        Some(b - 87)
    } else if 65 <= b && b <= 70 {
        Some(b - 55)
    } else {
        None
    }
}

/// Parses the four length bytes of a frame as `u16::from_str_radix` with
/// radix sixteen would.
fn parse_len(four: &[u8]) -> (r: Option<u16>)
    requires
        four@.len() == 4,
    ensures
        r == spec_parse_len(four@),
{
    let d0 = hex_val(four[0]);
    let d1 = hex_val(four[1]);
    let d2 = hex_val(four[2]);
    let d3 = hex_val(four[3]);
    if let (Some(v0), Some(v1), Some(v2), Some(v3)) = (d0, d1, d2, d3) {
        return Some(
            (v0 as u16) * 0x1000 + (v1 as u16) * 0x100 + (v2 as u16) * 0x10 + (v3 as u16),
        );
    }
    if four[0] == 43 {
        if let (Some(v1), Some(v2), Some(v3)) = (d1, d2, d3) {
            return Some((v1 as u16) * 0x100 + (v2 as u16) * 0x10 + (v3 as u16));
        }
        return None;
    }
    None
}

/// Removes the first `n` bytes of a buffer, keeping the rest in place.
fn drop_prefix(v: &mut Vec<u8>, n: usize)
    requires
        n <= old(v)@.len(),
    ensures
        final(v)@ == old(v)@.skip(n as int),
{
    let tail = v.split_off(n);
    *v = tail;
    proof {
        assert(final(v)@ =~= old(v)@.skip(n as int));
    }
}

/// The stateful pkt-line decoder: one in-progress command accumulator,
/// owned by a single logical stream and carried across invocations.
pub struct GitCodec {
    command: GitCommand,
}

impl View for GitCodec {
    type V = CommandModel;

    closed spec fn view(&self) -> CommandModel {
        self.command@
    }
}

impl Default for GitCodec {
    fn default() -> (r: Self)
        ensures
            r@ == spec_empty_command(),
    {
        GitCodec { command: GitCommand::default() }
    }
}

impl GitCodec {
    /// Consumes buffered bytes until a command completes, more input is
    /// needed, or the stream proves corrupt, exactly as the decoder state
    /// machine says: the result, the bytes left in the buffer and the
    /// accumulator carried to the next invocation all follow
    /// [`spec_decode`] on the accumulator and buffer handed in.
    pub fn decode(&mut self, src: &mut Vec<u8>) -> (res: Result<Option<GitCommand>, Error>)
        ensures
            ({
                let outcome = spec_decode(old(self)@, old(src)@);
                match outcome {
                    DecodeOutcome::NeedMore { state, rest } => res == Ok::<
                        Option<GitCommand>,
                        Error,
                    >(None) && final(self)@ == state && final(src)@ == rest,
                    DecodeOutcome::Complete { cmd, rest } => (res matches Ok(c) && c matches Some(
                        g,
                    ) && g@ == cmd) && final(self)@ == spec_empty_command() && final(src)@ == rest,
                    DecodeOutcome::Failed { err, state, rest } => res == Err::<
                        Option<GitCommand>,
                        Error,
                    >(err) && final(self)@ == state && final(src)@ == rest,
                }
            }),
    {
        proof {
            assert(src@.skip(0) =~= src@);
        }
        let mut pos: usize = 0;
        loop
            invariant
                pos <= src@.len(),
                src@ == old(src)@,
                spec_decode(self@, src@.skip(pos as int)) == spec_decode(old(self)@, old(src)@),
            decreases src@.len() - pos,
        {
            let ghost prev_state = self@;
            let ghost prev_pos = pos as int;

            if src.len() - pos < 4 {
                drop_prefix(src, pos);
                return Ok(None);
            }

            let length_opt = {
                let four: &[u8] = &src.as_slice()[pos..pos + 4];
                if !utf8_check(four) {
                    proof {
                        assert(four@ == src@.subrange(prev_pos, prev_pos + 4));
                        assert(src@.skip(prev_pos).subrange(0, 4) =~= four@);
                    }
                    drop_prefix(src, pos);
                    return Err(Error::ParseLengthBytes);
                }
                proof {
                    assert(four@ == src@.subrange(prev_pos, prev_pos + 4));
                    assert(src@.skip(prev_pos).subrange(0, 4) =~= four@);
                }
                parse_len(four)
            };

            let length = match length_opt {
                Some(l) => l,
                None => {
                    drop_prefix(src, pos);
                    return Err(Error::ParseLengthAsHex);
                },
            };

            if length == 0 {
                // flush: hand the accumulated command out and reset
                pos = pos + 4;
                let mut taken = GitCommand { command: Vec::new(), metadata: Vec::new() };
                core::mem::swap(&mut self.command, &mut taken);
                proof {
                    assert(self@.metadata =~= Seq::<Seq<u8>>::empty());
                    assert(src@.skip(prev_pos).skip(4) =~= src@.skip(pos as int));
                }
                drop_prefix(src, pos);
                return Ok(Some(taken));
            } else if length == 1 || length == 2 {
                // delimiter and response-end markers are consumed without
                // being recorded
                pos = pos + 4;
                proof {
                    assert(src@.skip(prev_pos).skip(4) =~= src@.skip(pos as int));
                }
            } else if length < 4 || length > 65520 {
                drop_prefix(src, pos);
                return Err(
                    Error::PacketLengthExceedsSpec { min: 4, max: 65520, found: length as usize },
                );
            } else if src.len() - pos < length as usize {
                // not enough bytes in the buffer yet, ask for more
                src.reserve(length as usize - (src.len() - pos));
                drop_prefix(src, pos);
                return Ok(None);
            } else {
                // the length is inclusive of the 4 bytes that make it up
                let start = pos + 4;
                let end = pos + length as usize;

                // strip one trailing newline for conformity
                let mut data_end = end;
                if length > 4 && src[end - 1] == 10 {
                    data_end = end - 1;
                }

                let mut payload: Vec<u8> = Vec::new();
                payload.extend_from_slice(&src.as_slice()[start..data_end]);
                proof {
                    assert(payload@ =~= src@.subrange(start as int, data_end as int));
                    assert(src@.skip(prev_pos).subrange(4, length as int) =~= src@.subrange(
                        start as int,
                        end as int,
                    ));
                    assert(payload@ == spec_strip_newline(
                        src@.skip(prev_pos).subrange(4, length as int),
                    ));
                }

                let ghost meta_before = self@.metadata;
                if self.command.command.is_empty() {
                    self.command.command = payload;
                } else {
                    self.command.metadata.push(payload);
                    proof {
                        assert(self@.metadata =~~= meta_before.push(
                            spec_strip_newline(src@.skip(prev_pos).subrange(4, length as int)),
                        ));
                    }
                }
                pos = end;
                proof {
                    assert(self@ == spec_accumulate(
                        prev_state,
                        spec_strip_newline(src@.skip(prev_pos).subrange(4, length as int)),
                    ));
                    assert(src@.skip(prev_pos).skip(length as int) =~= src@.skip(pos as int));
                }
            }
        }
    }
}

/// Splitting a byte stream anywhere across invocations cannot change what
/// is decoded: when a prefix leaves the decoder needing more data, feeding
/// the next bytes after the kept leftover continues exactly like decoding
/// the whole stream at once.
pub proof fn lemma_decode_resumption(state: CommandModel, b1: Seq<u8>, b2: Seq<u8>)
    ensures
        spec_decode(state, b1) matches DecodeOutcome::NeedMore { state: st, rest } ==> spec_decode(
            state,
            b1 + b2,
        ) == spec_decode(st, rest + b2),
    decreases b1.len(),
{
    if b1.len() < 4 {
        // the leftover is the whole prefix, so both sides decode the same
        // bytes from the same accumulator
    } else {
        assert((b1 + b2).subrange(0, 4) =~= b1.subrange(0, 4));
        if valid_utf8(b1.subrange(0, 4)) {
            match spec_parse_len(b1.subrange(0, 4)) {
                None => {},
                Some(len) => {
                    if len == 1 || len == 2 {
                        assert((b1 + b2).skip(4) =~= b1.skip(4) + b2);
                        lemma_decode_resumption(state, b1.skip(4), b2);
                    } else if 4 <= len && len <= 65520 {
                        if b1.len() < len {
                            // the leftover is again the whole prefix
                        } else {
                            assert((b1 + b2).subrange(4, len as int) =~= b1.subrange(
                                4,
                                len as int,
                            ));
                            assert((b1 + b2).skip(len as int) =~= b1.skip(len as int) + b2);
                            lemma_decode_resumption(
                                spec_accumulate(
                                    state,
                                    spec_strip_newline(b1.subrange(4, len as int)),
                                ),
                                b1.skip(len as int),
                                b2,
                            );
                        }
                    }
                },
            }
        }
    }
}

} // verus!
