//! Stack map frames and verification types.
//!
//! One tag byte selects the frame shape by non-contiguous value ranges;
//! the tag space 0..=255 is a complete partition: every byte value maps
//! to exactly one frame shape or to a defined error, and the reserved
//! range 128..=246 is a deliberate hard error.

use vstd::prelude::*;

use crate::cursor::{spec_read_u8, spec_read_u16, Cursor};
use crate::error::{DecodeError, DecodeErrorKind, SpecDecodeError};

verus! {

/// One slot's type descriptor within a stack map frame.
#[derive(Debug, Clone, Copy, PartialEq, Eq, Structural)]
pub enum VerificationTypeInfo {
    TopVariable,
    IntegerVariable,
    FloatVariable,
    LongVariable,
    DoubleVariable,
    NullVariable,
    UninitializedThisVariable,
    ObjectVariable { cpool_index: u16 },
    UninitializedVariable { offset: u16 },
}

/// A compact encoding of the verifier's expected local and stack types at
/// a bytecode offset: one of 7 shapes selected by the frame tag.
#[derive(Debug, Clone)]
pub enum StackMapFrame {
    Same { tag: u8, offset_delta: u16 },
    SameLocals1StackItem { tag: u8, offset_delta: u16, stack: [VerificationTypeInfo; 1] },
    SameLocalsStackItemExtended { tag: u8, offset_delta: u16, stack: [VerificationTypeInfo; 1] },
    Chop { tag: u8, offset_delta: u16 },
    SameExtended { tag: u8, offset_delta: u16 },
    Append { tag: u8, offset_delta: u16, locals: Vec<VerificationTypeInfo> },
    Full {
        tag: u8,
        offset_delta: u16,
        locals: Vec<VerificationTypeInfo>,
        stack: Vec<VerificationTypeInfo>,
    },
}

/// Mathematical model of a stack map frame.
pub enum SpecStackMapFrame {
    Same { tag: u8, offset_delta: u16 },
    SameLocals1StackItem { tag: u8, offset_delta: u16, stack: VerificationTypeInfo },
    SameLocalsStackItemExtended { tag: u8, offset_delta: u16, stack: VerificationTypeInfo },
    Chop { tag: u8, offset_delta: u16 },
    SameExtended { tag: u8, offset_delta: u16 },
    Append { tag: u8, offset_delta: u16, locals: Seq<VerificationTypeInfo> },
    Full {
        tag: u8,
        offset_delta: u16,
        locals: Seq<VerificationTypeInfo>,
        stack: Seq<VerificationTypeInfo>,
    },
}

impl View for StackMapFrame {
    type V = SpecStackMapFrame;

    open spec fn view(&self) -> SpecStackMapFrame {
        match self {
            StackMapFrame::Same { tag, offset_delta } => (SpecStackMapFrame::Same {
                tag: *tag,
                offset_delta: *offset_delta,
            }),
            StackMapFrame::SameLocals1StackItem { tag, offset_delta, stack } => (
            SpecStackMapFrame::SameLocals1StackItem {
                tag: *tag,
                offset_delta: *offset_delta,
                stack: stack@[0],
            }),
            StackMapFrame::SameLocalsStackItemExtended { tag, offset_delta, stack } => (
            SpecStackMapFrame::SameLocalsStackItemExtended {
                tag: *tag,
                offset_delta: *offset_delta,
                stack: stack@[0],
            }),
            StackMapFrame::Chop { tag, offset_delta } => (SpecStackMapFrame::Chop {
                tag: *tag,
                offset_delta: *offset_delta,
            }),
            StackMapFrame::SameExtended { tag, offset_delta } => (SpecStackMapFrame::SameExtended {
                tag: *tag,
                offset_delta: *offset_delta,
            }),
            StackMapFrame::Append { tag, offset_delta, locals } => (SpecStackMapFrame::Append {
                tag: *tag,
                offset_delta: *offset_delta,
                locals: locals@,
            }),
            StackMapFrame::Full { tag, offset_delta, locals, stack } => (SpecStackMapFrame::Full {
                tag: *tag,
                offset_delta: *offset_delta,
                locals: locals@,
                stack: stack@,
            }),
        }
    }
}

/// Parsing one verification type: a tag byte 0..=8, with a 16-bit payload
/// for `ObjectVariable` (7) and `UninitializedVariable` (8). Any other
/// byte fails with [`DecodeErrorKind::UnknownVerificationTag`] at the
/// tag's offset.
pub open spec fn spec_parse_verification_type(data: Seq<u8>, pos: int) -> Result<
    (VerificationTypeInfo, int),
    SpecDecodeError,
> {
    match spec_read_u8(data, pos) {
        Err(e) => Err(e),
        Ok((tag, p)) => match tag {
            0u8 => Ok((VerificationTypeInfo::TopVariable, p)),
            1u8 => Ok((VerificationTypeInfo::IntegerVariable, p)),
            2u8 => Ok((VerificationTypeInfo::FloatVariable, p)),
            3u8 => Ok((VerificationTypeInfo::DoubleVariable, p)),
            4u8 => Ok((VerificationTypeInfo::LongVariable, p)),
            5u8 => Ok((VerificationTypeInfo::NullVariable, p)),
            6u8 => Ok((VerificationTypeInfo::UninitializedThisVariable, p)),
            7u8 => match spec_read_u16(data, p) {
                Err(e) => Err(e),
                Ok((cpool_index, p2)) => Ok(
                    (VerificationTypeInfo::ObjectVariable { cpool_index }, p2),
                ),
            },
            8u8 => match spec_read_u16(data, p) {
                Err(e) => Err(e),
                Ok((offset, p2)) => Ok((VerificationTypeInfo::UninitializedVariable { offset }, p2)),
            },
            _ => Err(
                SpecDecodeError { kind: DecodeErrorKind::UnknownVerificationTag, offset: pos },
            ),
        },
    }
}

/// Decode one verification type.
pub fn verification_type_info(cur: &mut Cursor) -> (r: Result<VerificationTypeInfo, DecodeError>)
    requires
        old(cur).wf(),
    ensures
        final(cur).data@ == old(cur).data@,
        final(cur).wf(),
        old(cur).pos <= final(cur).pos,
        match r {
            Ok(v) => {
                &&& spec_parse_verification_type(old(cur).data@, old(cur).pos as int) matches Ok(s)
                &&& s == (v, final(cur).pos as int)
            },
            Err(e) => {
                &&& spec_parse_verification_type(old(cur).data@, old(cur).pos as int) matches Err(
                se)
                &&& se == e@
            },
        },
{
    let tag_offset = cur.pos;
    let tag = cur.read_u8()?;
    match tag {
        0u8 => Ok(VerificationTypeInfo::TopVariable),
        1u8 => Ok(VerificationTypeInfo::IntegerVariable),
        2u8 => Ok(VerificationTypeInfo::FloatVariable),
        3u8 => Ok(VerificationTypeInfo::DoubleVariable),
        4u8 => Ok(VerificationTypeInfo::LongVariable),
        5u8 => Ok(VerificationTypeInfo::NullVariable),
        6u8 => Ok(VerificationTypeInfo::UninitializedThisVariable),
        7u8 => {
            let cpool_index = cur.read_u16()?;
            Ok(VerificationTypeInfo::ObjectVariable { cpool_index })
        },
        8u8 => {
            let offset = cur.read_u16()?;
            Ok(VerificationTypeInfo::UninitializedVariable { offset })
        },
        _ => Err(
            DecodeError { kind: DecodeErrorKind::UnknownVerificationTag, offset: tag_offset },
        ),
    }
}

/// Parsing `n` verification types in a row, accumulating onto `acc`.
pub open spec fn spec_parse_vtype_list(
    data: Seq<u8>,
    pos: int,
    acc: Seq<VerificationTypeInfo>,
    n: int,
) -> Result<(Seq<VerificationTypeInfo>, int), SpecDecodeError>
    decreases n - acc.len(),
{
    if acc.len() >= n {
        Ok((acc, pos))
    } else {
        match spec_parse_verification_type(data, pos) {
            Err(e) => Err(e),
            Ok((v, p)) => spec_parse_vtype_list(data, p, acc.push(v), n),
        }
    }
}

/// Decode `n` verification types in a row.
#[verifier::loop_isolation(false)]
pub fn vtype_list(cur: &mut Cursor, n: u16) -> (r: Result<Vec<VerificationTypeInfo>, DecodeError>)
    requires
        old(cur).wf(),
    ensures
        final(cur).data@ == old(cur).data@,
        final(cur).wf(),
        old(cur).pos <= final(cur).pos,
        match r {
            Ok(v) => {
                &&& spec_parse_vtype_list(
                    old(cur).data@,
                    old(cur).pos as int,
                    Seq::empty(),
                    n as int,
                ) matches Ok(s)
                &&& s == (v@, final(cur).pos as int)
            },
            Err(e) => {
                &&& spec_parse_vtype_list(
                    old(cur).data@,
                    old(cur).pos as int,
                    Seq::empty(),
                    n as int,
                ) matches Err(se)
                &&& se == e@
            },
        },
{
    let ghost data = old(cur).data@;
    let ghost p_start = old(cur).pos as int;
    let mut out: Vec<VerificationTypeInfo> = Vec::new();
    while out.len() < n as usize
        invariant
            cur.wf(),
            cur.data@ == data,
            old(cur).pos <= cur.pos,
            out@.len() <= n as usize,
            spec_parse_vtype_list(data, cur.pos as int, out@, n as int) == spec_parse_vtype_list(
                data,
                p_start,
                Seq::empty(),
                n as int,
            ),
        decreases n as int - out@.len(),
    {
        let v = verification_type_info(cur)?;
        out.push(v);
    }
    Ok(out)
}

/// Parsing one stack map frame, dispatched on the tag byte per the fixed
/// range table. Tags 128..=246 fail with
/// [`DecodeErrorKind::ReservedFrameTag`] at the tag's offset.
pub open spec fn spec_parse_stack_map_frame(data: Seq<u8>, pos: int) -> Result<
    (SpecStackMapFrame, int),
    SpecDecodeError,
> {
    match spec_read_u8(data, pos) {
        Err(e) => Err(e),
        Ok((tag, p)) => if tag <= 63 {
            Ok((SpecStackMapFrame::Same { tag, offset_delta: tag as u16 }, p))
        } else if tag <= 127 {
            match spec_parse_verification_type(data, p) {
                Err(e) => Err(e),
                Ok((v, p2)) => Ok(
                    (
                        SpecStackMapFrame::SameLocals1StackItem {
                            tag,
                            offset_delta: (tag - 64) as u16,
                            stack: v,
                        },
                        p2,
                    ),
                ),
            }
        } else if tag <= 246 {
            Err(SpecDecodeError { kind: DecodeErrorKind::ReservedFrameTag, offset: pos })
        } else if tag == 247 {
            match spec_read_u16(data, p) {
                Err(e) => Err(e),
                Ok((offset_delta, p2)) => match spec_parse_verification_type(data, p2) {
                    Err(e) => Err(e),
                    Ok((v, p3)) => Ok(
                        (
                            SpecStackMapFrame::SameLocalsStackItemExtended {
                                tag,
                                offset_delta,
                                stack: v,
                            },
                            p3,
                        ),
                    ),
                },
            }
        } else if tag <= 250 {
            match spec_read_u16(data, p) {
                Err(e) => Err(e),
                Ok((offset_delta, p2)) => Ok((SpecStackMapFrame::Chop { tag, offset_delta }, p2)),
            }
        } else if tag == 251 {
            match spec_read_u16(data, p) {
                Err(e) => Err(e),
                Ok((offset_delta, p2)) => Ok(
                    (SpecStackMapFrame::SameExtended { tag, offset_delta }, p2),
                ),
            }
        } else if tag <= 254 {
            match spec_read_u16(data, p) {
                Err(e) => Err(e),
                Ok((offset_delta, p2)) => match spec_parse_vtype_list(
                    data,
                    p2,
                    Seq::empty(),
                    tag - 251,
                ) {
                    Err(e) => Err(e),
                    Ok((locals, p3)) => Ok(
                        (SpecStackMapFrame::Append { tag, offset_delta, locals }, p3),
                    ),
                },
            }
        } else {
            match spec_read_u16(data, p) {
                Err(e) => Err(e),
                Ok((offset_delta, p2)) => match spec_read_u16(data, p2) {
                    Err(e) => Err(e),
                    Ok((num_locals, p3)) => if num_locals > data.len() - p3 {
                        Err(
                            SpecDecodeError {
                                kind: DecodeErrorKind::CollectionLengthExceedsRemainingInput,
                                offset: p3,
                            },
                        )
                    } else {
                        match spec_parse_vtype_list(data, p3, Seq::empty(), num_locals as int) {
                            Err(e) => Err(e),
                            Ok((locals, p4)) => match spec_read_u16(data, p4) {
                                Err(e) => Err(e),
                                Ok((num_stack, p5)) => if num_stack > data.len() - p5 {
                                    Err(
                                        SpecDecodeError {
                                            kind:
                                                DecodeErrorKind::CollectionLengthExceedsRemainingInput,
                                            offset: p5,
                                        },
                                    )
                                } else {
                                    match spec_parse_vtype_list(
                                        data,
                                        p5,
                                        Seq::empty(),
                                        num_stack as int,
                                    ) {
                                        Err(e) => Err(e),
                                        Ok((stack, p6)) => Ok(
                                            (
                                                SpecStackMapFrame::Full {
                                                    tag,
                                                    offset_delta,
                                                    locals,
                                                    stack,
                                                },
                                                p6,
                                            ),
                                        ),
                                    }
                                },
                            },
                        }
                    },
                },
            }
        },
    }
}

/// Decode one stack map frame.
pub fn stack_map_frame(cur: &mut Cursor) -> (r: Result<StackMapFrame, DecodeError>)
    requires
        old(cur).wf(),
    ensures
        final(cur).data@ == old(cur).data@,
        final(cur).wf(),
        old(cur).pos <= final(cur).pos,
        match r {
            Ok(f) => {
                &&& spec_parse_stack_map_frame(old(cur).data@, old(cur).pos as int) matches Ok(s)
                &&& s == (f@, final(cur).pos as int)
            },
            Err(e) => {
                &&& spec_parse_stack_map_frame(old(cur).data@, old(cur).pos as int) matches Err(se)
                &&& se == e@
            },
        },
{
    let tag_offset = cur.pos;
    let tag = cur.read_u8()?;
    if tag <= 63 {
        Ok(StackMapFrame::Same { tag, offset_delta: tag as u16 })
    } else if tag <= 127 {
        let v = verification_type_info(cur)?;
        Ok(StackMapFrame::SameLocals1StackItem { tag, offset_delta: (tag - 64) as u16, stack: [v] })
    } else if tag <= 246 {
        Err(DecodeError { kind: DecodeErrorKind::ReservedFrameTag, offset: tag_offset })
    } else if tag == 247 {
        let offset_delta = cur.read_u16()?;
        let v = verification_type_info(cur)?;
        Ok(StackMapFrame::SameLocalsStackItemExtended { tag, offset_delta, stack: [v] })
    } else if tag <= 250 {
        let offset_delta = cur.read_u16()?;
        Ok(StackMapFrame::Chop { tag, offset_delta })
    } else if tag == 251 {
        let offset_delta = cur.read_u16()?;
        Ok(StackMapFrame::SameExtended { tag, offset_delta })
    } else if tag <= 254 {
        let offset_delta = cur.read_u16()?;
        let locals = vtype_list(cur, (tag - 251) as u16)?;
        Ok(StackMapFrame::Append { tag, offset_delta, locals })
    } else {
        let offset_delta = cur.read_u16()?;
        let num_locals = cur.read_u16()?;
        if num_locals as usize > cur.remaining() {
            return Err(
                DecodeError {
                    kind: DecodeErrorKind::CollectionLengthExceedsRemainingInput,
                    offset: cur.pos,
                },
            );
        }
        let locals = vtype_list(cur, num_locals)?;
        let num_stack = cur.read_u16()?;
        if num_stack as usize > cur.remaining() {
            return Err(
                DecodeError {
                    kind: DecodeErrorKind::CollectionLengthExceedsRemainingInput,
                    offset: cur.pos,
                },
            );
        }
        let stack = vtype_list(cur, num_stack)?;
        Ok(StackMapFrame::Full { tag, offset_delta, locals, stack })
    }
}

/// Parsing `n` stack map frames in a row, accumulating onto `acc`.
pub open spec fn spec_parse_frame_list(
    data: Seq<u8>,
    pos: int,
    acc: Seq<SpecStackMapFrame>,
    n: int,
) -> Result<(Seq<SpecStackMapFrame>, int), SpecDecodeError>
    decreases n - acc.len(),
{
    if acc.len() >= n {
        Ok((acc, pos))
    } else {
        match spec_parse_stack_map_frame(data, pos) {
            Err(e) => Err(e),
            Ok((f, p)) => spec_parse_frame_list(data, p, acc.push(f), n),
        }
    }
}

/// The model of a sequence of decoded frames.
pub open spec fn spec_frames_view(s: Seq<StackMapFrame>) -> Seq<SpecStackMapFrame> {
    Seq::new(s.len(), |i: int| s[i]@)
}

proof fn lemma_frames_view_push(s: Seq<StackMapFrame>, x: StackMapFrame)
    ensures
        spec_frames_view(s.push(x)) == spec_frames_view(s).push(x@),
{
    assert(spec_frames_view(s.push(x)) =~= spec_frames_view(s).push(x@));
}

/// Parsing the body of a StackMapTable attribute: a count, then that many
/// frames.
pub open spec fn spec_parse_stack_map_table(data: Seq<u8>, pos: int) -> Result<
    (Seq<SpecStackMapFrame>, int),
    SpecDecodeError,
> {
    match spec_read_u16(data, pos) {
        Err(e) => Err(e),
        Ok((count, p)) => if count > data.len() - p {
            Err(
                SpecDecodeError {
                    kind: DecodeErrorKind::CollectionLengthExceedsRemainingInput,
                    offset: p,
                },
            )
        } else {
            spec_parse_frame_list(data, p, Seq::empty(), count as int)
        },
    }
}

/// Decode the body of a StackMapTable attribute.
#[verifier::loop_isolation(false)]
pub fn stack_map_table(cur: &mut Cursor) -> (r: Result<Vec<StackMapFrame>, DecodeError>)
    requires
        old(cur).wf(),
    ensures
        final(cur).data@ == old(cur).data@,
        final(cur).wf(),
        old(cur).pos <= final(cur).pos,
        match r {
            Ok(v) => {
                &&& spec_parse_stack_map_table(old(cur).data@, old(cur).pos as int) matches Ok(s)
                &&& s == (spec_frames_view(v@), final(cur).pos as int)
            },
            Err(e) => {
                &&& spec_parse_stack_map_table(old(cur).data@, old(cur).pos as int) matches Err(se)
                &&& se == e@
            },
        },
{
    let ghost data = old(cur).data@;
    let count = cur.read_u16()?;
    if count as usize > cur.remaining() {
        return Err(
            DecodeError {
                kind: DecodeErrorKind::CollectionLengthExceedsRemainingInput,
                offset: cur.pos,
            },
        );
    }
    let ghost p_start = cur.pos as int;
    let mut out: Vec<StackMapFrame> = Vec::new();
    proof {
        assert(spec_frames_view(out@) =~= Seq::<SpecStackMapFrame>::empty());
    }
    while out.len() < count as usize
        invariant
            cur.wf(),
            cur.data@ == data,
            old(cur).pos <= cur.pos,
            out@.len() <= count as usize,
            spec_parse_frame_list(data, cur.pos as int, spec_frames_view(out@), count as int)
                == spec_parse_frame_list(data, p_start, Seq::empty(), count as int),
        decreases count as int - out@.len(),
    {
        let f = stack_map_frame(cur)?;
        proof {
            lemma_frames_view_push(out@, f);
        }
        out.push(f);
    }
    Ok(out)
}

/// The fixed frame-shape table: which frame shape and offset-delta source
/// each tag byte selects.
pub open spec fn spec_frame_shape(tag: u8, f: SpecStackMapFrame) -> bool {
    if tag <= 63 {
        f matches SpecStackMapFrame::Same { tag: t, offset_delta } && t == tag && offset_delta
            == tag
    } else if tag <= 127 {
        f matches SpecStackMapFrame::SameLocals1StackItem { tag: t, offset_delta, .. } && t == tag
            && offset_delta == tag - 64
    } else if tag <= 246 {
        false
    } else if tag == 247 {
        f matches SpecStackMapFrame::SameLocalsStackItemExtended { tag: t, .. } && t == tag
    } else if tag <= 250 {
        f matches SpecStackMapFrame::Chop { tag: t, .. } && t == tag
    } else if tag == 251 {
        f matches SpecStackMapFrame::SameExtended { tag: t, .. } && t == tag
    } else if tag <= 254 {
        f matches SpecStackMapFrame::Append { tag: t, locals, .. } && t == tag && locals.len()
            == tag - 251
    } else {
        f matches SpecStackMapFrame::Full { tag: t, .. } && t == tag
    }
}

/// The frame tag space is a complete partition of 0..=255: whenever a
/// frame is produced, its shape is the one the table assigns to the tag
/// byte, and a tag in the reserved range 128..=246 always fails with
/// [`DecodeErrorKind::ReservedFrameTag`] at the tag's offset.
pub proof fn lemma_frame_tag_dispatch(data: Seq<u8>, pos: int)
    requires
        0 <= pos < data.len(),
    ensures
        128 <= data[pos] <= 246 ==> (spec_parse_stack_map_frame(data, pos) matches Err(e)
            && e.kind == DecodeErrorKind::ReservedFrameTag && e.offset == pos),
        spec_parse_stack_map_frame(data, pos) matches Ok(s) ==> spec_frame_shape(
            data[pos],
            s.0,
        ),
{
    let tag = data[pos];
    if tag >= 252 && tag <= 254 {
        if spec_parse_stack_map_frame(data, pos) matches Ok(s) {
            match spec_read_u16(data, pos + 1) {
                Err(_) => {},
                Ok((offset_delta, p2)) => {
                    lemma_vtype_list_len(data, p2, Seq::empty(), tag - 251);
                },
            }
        }
    }
}

/// A successful verification type list holds exactly the asked-for number
/// of entries (or `acc`'s length, where that is already larger).
proof fn lemma_vtype_list_len(data: Seq<u8>, pos: int, acc: Seq<VerificationTypeInfo>, n: int)
    ensures
        spec_parse_vtype_list(data, pos, acc, n) matches Ok(s) ==> s.0.len() == if acc.len() >= n {
            acc.len() as int
        } else {
            n
        },
    decreases n - acc.len(),
{
    if acc.len() >= n {
    } else {
        match spec_parse_verification_type(data, pos) {
            Err(_) => {},
            Ok((v, p)) => {
                lemma_vtype_list_len(data, p, acc.push(v), n);
            },
        }
    }
}

/// Parsing one verification type from a prefix of the buffer.
proof fn lemma_prefix_verification_type(data: Seq<u8>, k: int, pos: int)
    requires
        0 <= pos <= k <= data.len(),
    ensures
        spec_parse_verification_type(data, pos) matches Ok(s) ==> pos + 1 <= s.1 <= data.len(),
        spec_parse_verification_type(data, pos) matches Ok(s) ==> (if s.1 <= k {
            spec_parse_verification_type(data.take(k), pos) == spec_parse_verification_type(
                data,
                pos,
            )
        } else {
            spec_parse_verification_type(data.take(k), pos) matches Err(e)
                && crate::error::spec_is_exhaustion_error(e)
        }),
{
    crate::cursor::lemma_prefix_read_u8(data, k, pos);
    match spec_read_u8(data, pos) {
        Err(_) => {},
        Ok((tag, p)) => {
            if p <= k {
                crate::cursor::lemma_prefix_read_u16(data, k, p);
            } else {
                crate::cursor::lemma_prefix_read_u16(data, data.len() as int, p);
            }
        },
    }
}

/// Parsing a verification type list from a prefix of the buffer. Each
/// entry still to read accounts for at least one consumed byte.
proof fn lemma_prefix_vtype_list(
    data: Seq<u8>,
    k: int,
    pos: int,
    acc: Seq<VerificationTypeInfo>,
    n: int,
)
    requires
        0 <= pos <= k <= data.len(),
    ensures
        spec_parse_vtype_list(data, pos, acc, n) matches Ok(s) ==> s.1 <= data.len() && s.1 >= pos
            + (if acc.len() < n {
            n - acc.len()
        } else {
            0
        }),
        spec_parse_vtype_list(data, pos, acc, n) matches Ok(s) ==> (if s.1 <= k {
            spec_parse_vtype_list(data.take(k), pos, acc, n) == spec_parse_vtype_list(
                data,
                pos,
                acc,
                n,
            )
        } else {
            spec_parse_vtype_list(data.take(k), pos, acc, n) matches Err(e)
                && crate::error::spec_is_exhaustion_error(e)
        }),
    decreases n - acc.len(),
{
    if acc.len() >= n {
    } else {
        lemma_prefix_verification_type(data, k, pos);
        match spec_parse_verification_type(data, pos) {
            Err(_) => {},
            Ok((v, p)) => {
                if p <= k {
                    lemma_prefix_vtype_list(data, k, p, acc.push(v), n);
                } else {
                    lemma_prefix_vtype_list(data, data.len() as int, p, acc.push(v), n);
                }
            },
        }
    }
}

/// Parsing one stack map frame from a prefix of the buffer.
#[verifier::rlimit(100)]
proof fn lemma_prefix_stack_map_frame(data: Seq<u8>, k: int, pos: int)
    requires
        0 <= pos <= k <= data.len(),
    ensures
        spec_parse_stack_map_frame(data, pos) matches Ok(s) ==> pos + 1 <= s.1 <= data.len(),
        spec_parse_stack_map_frame(data, pos) matches Ok(s) ==> (if s.1 <= k {
            spec_parse_stack_map_frame(data.take(k), pos) == spec_parse_stack_map_frame(data, pos)
        } else {
            spec_parse_stack_map_frame(data.take(k), pos) matches Err(e)
                && crate::error::spec_is_exhaustion_error(e)
        }),
{
    crate::cursor::lemma_prefix_read_u8(data, k, pos);
    match spec_read_u8(data, pos) {
        Err(_) => {},
        Ok((tag, p)) => {
            if tag <= 63 {
            } else if tag <= 127 {
                if p <= k {
                    lemma_prefix_verification_type(data, k, p);
                } else {
                    lemma_prefix_verification_type(data, data.len() as int, p);
                }
            } else if tag <= 246 {
            } else if tag == 247 {
                if p <= k {
                    crate::cursor::lemma_prefix_read_u16(data, k, p);
                } else {
                    crate::cursor::lemma_prefix_read_u16(data, data.len() as int, p);
                }
                match spec_read_u16(data, p) {
                    Err(_) => {},
                    Ok((_, p2)) => {
                        if p2 <= k {
                            lemma_prefix_verification_type(data, k, p2);
                        } else {
                            lemma_prefix_verification_type(data, data.len() as int, p2);
                        }
                    },
                }
            } else if tag <= 251 {
                if p <= k {
                    crate::cursor::lemma_prefix_read_u16(data, k, p);
                } else {
                    crate::cursor::lemma_prefix_read_u16(data, data.len() as int, p);
                }
            } else if tag <= 254 {
                if p <= k {
                    crate::cursor::lemma_prefix_read_u16(data, k, p);
                } else {
                    crate::cursor::lemma_prefix_read_u16(data, data.len() as int, p);
                }
                match spec_read_u16(data, p) {
                    Err(_) => {},
                    Ok((_, p2)) => {
                        if p2 <= k {
                            lemma_prefix_vtype_list(data, k, p2, Seq::empty(), tag - 251);
                        } else {
                            lemma_prefix_vtype_list(
                                data,
                                data.len() as int,
                                p2,
                                Seq::empty(),
                                tag - 251,
                            );
                        }
                    },
                }
            } else {
                if p <= k {
                    crate::cursor::lemma_prefix_read_u16(data, k, p);
                } else {
                    crate::cursor::lemma_prefix_read_u16(data, data.len() as int, p);
                }
                match spec_read_u16(data, p) {
                    Err(_) => {},
                    Ok((_, p2)) => {
                        if p2 <= k {
                            crate::cursor::lemma_prefix_read_u16(data, k, p2);
                        } else {
                            crate::cursor::lemma_prefix_read_u16(data, data.len() as int, p2);
                        }
                        match spec_read_u16(data, p2) {
                            Err(_) => {},
                            Ok((num_locals, p3)) => {
                                if num_locals > data.len() - p3 {
                                } else {
                                    lemma_prefix_vtype_list(
                                        data,
                                        data.len() as int,
                                        p3,
                                        Seq::empty(),
                                        num_locals as int,
                                    );
                                    if p3 <= k {
                                        lemma_prefix_vtype_list(
                                            data,
                                            k,
                                            p3,
                                            Seq::empty(),
                                            num_locals as int,
                                        );
                                    }
                                    match spec_parse_vtype_list(
                                        data,
                                        p3,
                                        Seq::empty(),
                                        num_locals as int,
                                    ) {
                                        Err(_) => {},
                                        Ok((_, p4)) => {
                                            if p4 <= k {
                                                crate::cursor::lemma_prefix_read_u16(data, k, p4);
                                            } else {
                                                crate::cursor::lemma_prefix_read_u16(
                                                    data,
                                                    data.len() as int,
                                                    p4,
                                                );
                                            }
                                            match spec_read_u16(data, p4) {
                                                Err(_) => {},
                                                Ok((num_stack, p5)) => {
                                                    if num_stack > data.len() - p5 {
                                                    } else {
                                                        lemma_prefix_vtype_list(
                                                            data,
                                                            data.len() as int,
                                                            p5,
                                                            Seq::empty(),
                                                            num_stack as int,
                                                        );
                                                        if p5 <= k {
                                                            lemma_prefix_vtype_list(
                                                                data,
                                                                k,
                                                                p5,
                                                                Seq::empty(),
                                                                num_stack as int,
                                                            );
                                                        }
                                                    }
                                                },
                                            }
                                        },
                                    }
                                }
                            },
                        }
                    },
                }
            }
        },
    }
}

/// Parsing a frame list from a prefix of the buffer. Each frame still to
/// read accounts for at least one consumed byte.
proof fn lemma_prefix_frame_list(
    data: Seq<u8>,
    k: int,
    pos: int,
    acc: Seq<SpecStackMapFrame>,
    n: int,
)
    requires
        0 <= pos <= k <= data.len(),
    ensures
        spec_parse_frame_list(data, pos, acc, n) matches Ok(s) ==> s.1 <= data.len() && s.1 >= pos
            + (if acc.len() < n {
            n - acc.len()
        } else {
            0
        }),
        spec_parse_frame_list(data, pos, acc, n) matches Ok(s) ==> (if s.1 <= k {
            spec_parse_frame_list(data.take(k), pos, acc, n) == spec_parse_frame_list(
                data,
                pos,
                acc,
                n,
            )
        } else {
            spec_parse_frame_list(data.take(k), pos, acc, n) matches Err(e)
                && crate::error::spec_is_exhaustion_error(e)
        }),
    decreases n - acc.len(),
{
    if acc.len() >= n {
    } else {
        lemma_prefix_stack_map_frame(data, k, pos);
        match spec_parse_stack_map_frame(data, pos) {
            Err(_) => {},
            Ok((f, p)) => {
                if p <= k {
                    lemma_prefix_frame_list(data, k, p, acc.push(f), n);
                } else {
                    lemma_prefix_frame_list(data, data.len() as int, p, acc.push(f), n);
                }
            },
        }
    }
}

/// Parsing a StackMapTable body from a prefix of the buffer.
pub proof fn lemma_prefix_stack_map_table(data: Seq<u8>, k: int, pos: int)
    requires
        0 <= pos <= k <= data.len(),
    ensures
        spec_parse_stack_map_table(data, pos) matches Ok(s) ==> pos + 2 <= s.1 <= data.len(),
        spec_parse_stack_map_table(data, pos) matches Ok(s) ==> (if s.1 <= k {
            spec_parse_stack_map_table(data.take(k), pos) == spec_parse_stack_map_table(data, pos)
        } else {
            spec_parse_stack_map_table(data.take(k), pos) matches Err(e)
                && crate::error::spec_is_exhaustion_error(e)
        }),
{
    crate::cursor::lemma_prefix_read_u16(data, k, pos);
    match spec_read_u16(data, pos) {
        Err(_) => {},
        Ok((count, p)) => {
            if count > data.len() - p {
            } else {
                lemma_prefix_frame_list(data, data.len() as int, p, Seq::empty(), count as int);
                if p <= k {
                    lemma_prefix_frame_list(data, k, p, Seq::empty(), count as int);
                }
            }
        },
    }
}

} // verus!
