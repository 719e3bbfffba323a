//! Annotations and element values: the self-recursive tree decoder.
//!
//! An element value is a tagged union whose `@` and `[` shapes nest
//! annotations and further element values. Nesting is tree-shaped and
//! bounded by the input, but because input may be adversarial a depth
//! budget is threaded through the recursive decoders; exhausting it fails
//! with [`DecodeErrorKind::RecursionLimitExceeded`].

use vstd::prelude::*;

use crate::cursor::{spec_read_u8, spec_read_u16, Cursor};
use crate::error::{DecodeError, DecodeErrorKind, SpecDecodeError};

verus! {

/// The kind of an element value, as selected by its ASCII tag byte. The
/// nine primitive-or-string kinds share one decoded shape; the tag
/// records which kind it was.
#[derive(Debug, Clone, Copy, PartialEq, Eq, Structural)]
pub enum ElementValueTag {
    Byte,
    Char,
    Double,
    Float,
    Int,
    Long,
    Short,
    Boolean,
    String,
    EnumConstant,
    Class,
    Annotation,
    Array,
    Unknown,
}

impl ElementValueTag {
    /// The fixed mapping from ASCII tag byte to kind; any other byte is
    /// `Unknown` and makes the decode fail.
    pub open spec fn spec_from_byte(b: u8) -> ElementValueTag {
        match b {
            66u8 => ElementValueTag::Byte,
            67u8 => ElementValueTag::Char,
            68u8 => ElementValueTag::Double,
            70u8 => ElementValueTag::Float,
            73u8 => ElementValueTag::Int,
            74u8 => ElementValueTag::Long,
            83u8 => ElementValueTag::Short,
            90u8 => ElementValueTag::Boolean,
            115u8 => ElementValueTag::String,
            101u8 => ElementValueTag::EnumConstant,
            99u8 => ElementValueTag::Class,
            64u8 => ElementValueTag::Annotation,
            91u8 => ElementValueTag::Array,
            _ => ElementValueTag::Unknown,
        }
    }

    /// Map an ASCII tag byte to its kind.
    pub fn from_byte(b: u8) -> (t: ElementValueTag)
        ensures
            t == ElementValueTag::spec_from_byte(b),
    {
        match b {
            66u8 => ElementValueTag::Byte,
            67u8 => ElementValueTag::Char,
            68u8 => ElementValueTag::Double,
            70u8 => ElementValueTag::Float,
            73u8 => ElementValueTag::Int,
            74u8 => ElementValueTag::Long,
            83u8 => ElementValueTag::Short,
            90u8 => ElementValueTag::Boolean,
            115u8 => ElementValueTag::String,
            101u8 => ElementValueTag::EnumConstant,
            99u8 => ElementValueTag::Class,
            64u8 => ElementValueTag::Annotation,
            91u8 => ElementValueTag::Array,
            _ => ElementValueTag::Unknown,
        }
    }

    /// Whether this kind is one of the nine primitive-or-string constant
    /// kinds that share the single-index shape.
    pub open spec fn spec_is_const_kind(self) -> bool {
        match self {
            ElementValueTag::Byte => true,
            ElementValueTag::Char => true,
            ElementValueTag::Double => true,
            ElementValueTag::Float => true,
            ElementValueTag::Int => true,
            ElementValueTag::Long => true,
            ElementValueTag::Short => true,
            ElementValueTag::Boolean => true,
            ElementValueTag::String => true,
            _ => false,
        }
    }
}

/// One annotation: a type index and an ordered list of named element
/// values.
#[derive(Debug)]
pub struct Annotation {
    pub type_index: u16,
    pub element_value_pairs: Vec<ElementValuePair>,
}

/// One named element value within an annotation.
#[derive(Debug)]
pub struct ElementValuePair {
    pub element_name_index: u16,
    pub value: ElementValue,
}

/// An element value: a recursive tagged union. The nine structurally
/// identical primitive-or-string cases are consolidated into
/// `ConstValueIndex`, whose tag records which kind it was.
#[derive(Debug)]
pub enum ElementValue {
    ConstValueIndex { tag: ElementValueTag, index: u16 },
    EnumConstValue { type_name_index: u16, const_name_index: u16 },
    ClassInfoIndex { index: u16 },
    AnnotationValue { annotation_value: Annotation },
    ArrayValue { values: Vec<ElementValue> },
}

/// Mathematical model of an annotation.
pub struct SpecAnnotation {
    pub type_index: u16,
    pub element_value_pairs: Seq<SpecElementValuePair>,
}

/// Mathematical model of a named element value.
pub struct SpecElementValuePair {
    pub element_name_index: u16,
    pub value: SpecElementValue,
}

/// Mathematical model of an element value.
pub enum SpecElementValue {
    ConstValueIndex { tag: ElementValueTag, index: u16 },
    EnumConstValue { type_name_index: u16, const_name_index: u16 },
    ClassInfoIndex { index: u16 },
    AnnotationValue { annotation_value: SpecAnnotation },
    ArrayValue { values: Seq<SpecElementValue> },
}

/// The model of an element value.
pub open spec fn spec_element_value_view(v: ElementValue) -> SpecElementValue
    decreases v,
{
    match v {
        ElementValue::ConstValueIndex { tag, index } => (SpecElementValue::ConstValueIndex {
            tag,
            index,
        }),
        ElementValue::EnumConstValue { type_name_index, const_name_index } => (
        SpecElementValue::EnumConstValue { type_name_index, const_name_index }),
        ElementValue::ClassInfoIndex { index } => (SpecElementValue::ClassInfoIndex { index }),
        ElementValue::AnnotationValue { annotation_value } => (SpecElementValue::AnnotationValue {
            annotation_value: spec_annotation_view(annotation_value),
        }),
        ElementValue::ArrayValue { values } => {
            proof {
                assert(decreases_to!(v => values));
                assert(decreases_to!(values => values@));
            }
            (SpecElementValue::ArrayValue { values: spec_element_values_view(values@) })
        },
    }
}

/// The model of a sequence of element values.
pub open spec fn spec_element_values_view(s: Seq<ElementValue>) -> Seq<SpecElementValue>
    decreases s,
{
    if s.len() == 0 {
        Seq::empty()
    } else {
        proof {
            assert(decreases_to!(s => s.subrange(0, s.len() - 1)));
            assert(decreases_to!(s => s[s.len() - 1]));
        }
        spec_element_values_view(s.subrange(0, s.len() - 1)).push(
            spec_element_value_view(s[s.len() - 1]),
        )
    }
}

/// The model of a named element value.
pub open spec fn spec_element_value_pair_view(p: ElementValuePair) -> SpecElementValuePair
    decreases p,
{
    SpecElementValuePair {
        element_name_index: p.element_name_index,
        value: spec_element_value_view(p.value),
    }
}

/// The model of a sequence of named element values.
pub open spec fn spec_pairs_view(s: Seq<ElementValuePair>) -> Seq<SpecElementValuePair>
    decreases s,
{
    if s.len() == 0 {
        Seq::empty()
    } else {
        proof {
            assert(decreases_to!(s => s.subrange(0, s.len() - 1)));
            assert(decreases_to!(s => s[s.len() - 1]));
        }
        spec_pairs_view(s.subrange(0, s.len() - 1)).push(
            spec_element_value_pair_view(s[s.len() - 1]),
        )
    }
}

/// The model of an annotation.
pub open spec fn spec_annotation_view(a: Annotation) -> SpecAnnotation
    decreases a,
{
    proof {
        assert(decreases_to!(a => a.element_value_pairs));
        assert(decreases_to!(a.element_value_pairs => a.element_value_pairs@));
    }
    SpecAnnotation {
        type_index: a.type_index,
        element_value_pairs: spec_pairs_view(a.element_value_pairs@),
    }
}

impl View for ElementValue {
    type V = SpecElementValue;

    open spec fn view(&self) -> SpecElementValue {
        spec_element_value_view(*self)
    }
}

impl View for ElementValuePair {
    type V = SpecElementValuePair;

    open spec fn view(&self) -> SpecElementValuePair {
        spec_element_value_pair_view(*self)
    }
}

impl View for Annotation {
    type V = SpecAnnotation;

    open spec fn view(&self) -> SpecAnnotation {
        spec_annotation_view(*self)
    }
}

/// The model of a sequence of annotations.
pub open spec fn spec_annotations_view(s: Seq<Annotation>) -> Seq<SpecAnnotation> {
    Seq::new(s.len(), |i: int| spec_annotation_view(s[i]))
}

proof fn lemma_element_values_view_push(s: Seq<ElementValue>, x: ElementValue)
    ensures
        spec_element_values_view(s.push(x)) == spec_element_values_view(s).push(
            spec_element_value_view(x),
        ),
{
    assert(s.push(x).subrange(0, s.push(x).len() - 1) =~= s);
    assert(s.push(x)[s.push(x).len() - 1] == x);
}

proof fn lemma_pairs_view_push(s: Seq<ElementValuePair>, x: ElementValuePair)
    ensures
        spec_pairs_view(s.push(x)) == spec_pairs_view(s).push(spec_element_value_pair_view(x)),
{
    assert(s.push(x).subrange(0, s.push(x).len() - 1) =~= s);
    assert(s.push(x)[s.push(x).len() - 1] == x);
}

proof fn lemma_annotations_view_push(s: Seq<Annotation>, x: Annotation)
    ensures
        spec_annotations_view(s.push(x)) == spec_annotations_view(s).push(spec_annotation_view(x)),
{
    assert(spec_annotations_view(s.push(x)) =~= spec_annotations_view(s).push(
        spec_annotation_view(x),
    ));
}

/// Parsing one element value at a remaining depth budget. A spent budget
/// fails with [`DecodeErrorKind::RecursionLimitExceeded`]; an undefined
/// tag byte with [`DecodeErrorKind::UnknownElementValueTag`], both at the
/// tag's offset.
pub open spec fn spec_parse_element_value(data: Seq<u8>, pos: int, depth: int) -> Result<
    (SpecElementValue, int),
    SpecDecodeError,
>
    decreases depth, 0int, 0int,
{
    if depth <= 0 {
        Err(SpecDecodeError { kind: DecodeErrorKind::RecursionLimitExceeded, offset: pos })
    } else {
        match spec_read_u8(data, pos) {
            Err(e) => Err(e),
            Ok((tag_byte, p)) => {
                let tag = ElementValueTag::spec_from_byte(tag_byte);
                if tag.spec_is_const_kind() {
                    match spec_read_u16(data, p) {
                        Err(e) => Err(e),
                        Ok((index, p2)) => Ok((SpecElementValue::ConstValueIndex { tag, index }, p2)),
                    }
                } else if tag is EnumConstant {
                    match spec_read_u16(data, p) {
                        Err(e) => Err(e),
                        Ok((type_name_index, p2)) => match spec_read_u16(data, p2) {
                            Err(e) => Err(e),
                            Ok((const_name_index, p3)) => Ok(
                                (
                                    SpecElementValue::EnumConstValue {
                                        type_name_index,
                                        const_name_index,
                                    },
                                    p3,
                                ),
                            ),
                        },
                    }
                } else if tag is Class {
                    match spec_read_u16(data, p) {
                        Err(e) => Err(e),
                        Ok((index, p2)) => Ok((SpecElementValue::ClassInfoIndex { index }, p2)),
                    }
                } else if tag is Annotation {
                    match spec_parse_annotation(data, p, depth - 1) {
                        Err(e) => Err(e),
                        Ok((annotation_value, p2)) => Ok(
                            (SpecElementValue::AnnotationValue { annotation_value }, p2),
                        ),
                    }
                } else if tag is Array {
                    match spec_read_u16(data, p) {
                        Err(e) => Err(e),
                        Ok((count, p2)) => if count * 3 > data.len() - p2 {
                            Err(
                                SpecDecodeError {
                                    kind: DecodeErrorKind::CollectionLengthExceedsRemainingInput,
                                    offset: p2,
                                },
                            )
                        } else {
                            match spec_parse_element_value_list(
                                data,
                                p2,
                                Seq::empty(),
                                count as int,
                                depth - 1,
                            ) {
                                Err(e) => Err(e),
                                Ok((values, p3)) => Ok((SpecElementValue::ArrayValue { values }, p3)),
                            }
                        },
                    }
                } else {
                    Err(
                        SpecDecodeError {
                            kind: DecodeErrorKind::UnknownElementValueTag,
                            offset: pos,
                        },
                    )
                }
            },
        }
    }
}

/// Parsing `n` element values in a row, accumulating onto `acc`.
pub open spec fn spec_parse_element_value_list(
    data: Seq<u8>,
    pos: int,
    acc: Seq<SpecElementValue>,
    n: int,
    depth: int,
) -> Result<(Seq<SpecElementValue>, int), SpecDecodeError>
    decreases depth, 1int, n - acc.len(),
{
    if acc.len() >= n {
        Ok((acc, pos))
    } else {
        match spec_parse_element_value(data, pos, depth) {
            Err(e) => Err(e),
            Ok((v, p)) => spec_parse_element_value_list(data, p, acc.push(v), n, depth),
        }
    }
}

/// Parsing one named element value: name index, then the value.
pub open spec fn spec_parse_element_value_pair(data: Seq<u8>, pos: int, depth: int) -> Result<
    (SpecElementValuePair, int),
    SpecDecodeError,
>
    decreases depth, 2int, 0int,
{
    match spec_read_u16(data, pos) {
        Err(e) => Err(e),
        Ok((element_name_index, p)) => match spec_parse_element_value(data, p, depth) {
            Err(e) => Err(e),
            Ok((value, p2)) => Ok((SpecElementValuePair { element_name_index, value }, p2)),
        },
    }
}

/// Parsing `n` named element values in a row, accumulating onto `acc`.
pub open spec fn spec_parse_element_value_pair_list(
    data: Seq<u8>,
    pos: int,
    acc: Seq<SpecElementValuePair>,
    n: int,
    depth: int,
) -> Result<(Seq<SpecElementValuePair>, int), SpecDecodeError>
    decreases depth, 3int, n - acc.len(),
{
    if acc.len() >= n {
        Ok((acc, pos))
    } else {
        match spec_parse_element_value_pair(data, pos, depth) {
            Err(e) => Err(e),
            Ok((v, p)) => spec_parse_element_value_pair_list(data, p, acc.push(v), n, depth),
        }
    }
}

/// Parsing one annotation: type index, pair count, then that many named
/// element values.
pub open spec fn spec_parse_annotation(data: Seq<u8>, pos: int, depth: int) -> Result<
    (SpecAnnotation, int),
    SpecDecodeError,
>
    decreases depth, 4int, 0int,
{
    if depth <= 0 {
        Err(SpecDecodeError { kind: DecodeErrorKind::RecursionLimitExceeded, offset: pos })
    } else {
        match spec_read_u16(data, pos) {
            Err(e) => Err(e),
            Ok((type_index, p)) => match spec_read_u16(data, p) {
                Err(e) => Err(e),
                Ok((count, p2)) => if count * 5 > data.len() - p2 {
                    Err(
                        SpecDecodeError {
                            kind: DecodeErrorKind::CollectionLengthExceedsRemainingInput,
                            offset: p2,
                        },
                    )
                } else {
                    match spec_parse_element_value_pair_list(
                        data,
                        p2,
                        Seq::empty(),
                        count as int,
                        depth,
                    ) {
                        Err(e) => Err(e),
                        Ok((element_value_pairs, p3)) => Ok(
                            (SpecAnnotation { type_index, element_value_pairs }, p3),
                        ),
                    }
                },
            },
        }
    }
}

/// Parsing `n` annotations in a row, accumulating onto `acc`.
pub open spec fn spec_parse_annotation_list(
    data: Seq<u8>,
    pos: int,
    acc: Seq<SpecAnnotation>,
    n: int,
    depth: int,
) -> Result<(Seq<SpecAnnotation>, int), SpecDecodeError>
    decreases depth, 5int, n - acc.len(),
{
    if acc.len() >= n {
        Ok((acc, pos))
    } else {
        match spec_parse_annotation(data, pos, depth) {
            Err(e) => Err(e),
            Ok((a, p)) => spec_parse_annotation_list(data, p, acc.push(a), n, depth),
        }
    }
}

/// Decode one element value at a remaining depth budget.
#[verifier::loop_isolation(false)]
pub fn element_value(cur: &mut Cursor, depth: u32) -> (r: Result<ElementValue, DecodeError>)
    requires
        old(cur).wf(),
    ensures
        final(cur).data@ == old(cur).data@,
        final(cur).wf(),
        old(cur).pos <= final(cur).pos,
        match r {
            Ok(v) => {
                &&& spec_parse_element_value(old(cur).data@, old(cur).pos as int, depth as int)
                    matches Ok(s)
                &&& s == (spec_element_value_view(v), final(cur).pos as int)
            },
            Err(e) => {
                &&& spec_parse_element_value(old(cur).data@, old(cur).pos as int, depth as int)
                    matches Err(se)
                &&& se == e@
            },
        },
    decreases depth as int, 0int, 0int,
{
    if depth == 0 {
        return Err(
            DecodeError { kind: DecodeErrorKind::RecursionLimitExceeded, offset: cur.pos },
        );
    }
    let ghost data = old(cur).data@;
    let tag_offset = cur.pos;
    let tag_byte = cur.read_u8()?;
    let tag = ElementValueTag::from_byte(tag_byte);
    match tag {
        ElementValueTag::EnumConstant => {
            let type_name_index = cur.read_u16()?;
            let const_name_index = cur.read_u16()?;
            Ok(ElementValue::EnumConstValue { type_name_index, const_name_index })
        },
        ElementValueTag::Class => {
            let index = cur.read_u16()?;
            Ok(ElementValue::ClassInfoIndex { index })
        },
        ElementValueTag::Annotation => {
            let annotation_value = annotation(cur, depth - 1)?;
            Ok(ElementValue::AnnotationValue { annotation_value })
        },
        ElementValueTag::Array => {
            let count = cur.read_u16()?;
            if (count as usize) * 3 > cur.remaining() {
                return Err(
                    DecodeError {
                        kind: DecodeErrorKind::CollectionLengthExceedsRemainingInput,
                        offset: cur.pos,
                    },
                );
            }
            let ghost p_start = cur.pos as int;
            let mut values: Vec<ElementValue> = Vec::new();
            proof {
                assert(spec_element_values_view(values@) =~= Seq::<SpecElementValue>::empty());
            }
            while values.len() < count as usize
                invariant
                    cur.wf(),
                    cur.data@ == data,
                    old(cur).pos <= cur.pos,
                    values@.len() <= count as usize,
                    spec_element_values_view(values@).len() == values@.len(),
                    spec_parse_element_value_list(
                        data,
                        cur.pos as int,
                        spec_element_values_view(values@),
                        count as int,
                        depth - 1,
                    ) == spec_parse_element_value_list(
                        data,
                        p_start,
                        Seq::empty(),
                        count as int,
                        depth - 1,
                    ),
                decreases count as int - values@.len(),
            {
                let v = element_value(cur, depth - 1)?;
                proof {
                    lemma_element_values_view_push(values@, v);
                }
                values.push(v);
            }
            Ok(ElementValue::ArrayValue { values })
        },
        ElementValueTag::Unknown => {
            Err(DecodeError { kind: DecodeErrorKind::UnknownElementValueTag, offset: tag_offset })
        },
        _ => {
            let index = cur.read_u16()?;
            Ok(ElementValue::ConstValueIndex { tag, index })
        },
    }
}

/// Decode one named element value.
pub fn element_value_pair(cur: &mut Cursor, depth: u32) -> (r: Result<ElementValuePair, DecodeError>)
    requires
        old(cur).wf(),
    ensures
        final(cur).data@ == old(cur).data@,
        final(cur).wf(),
        old(cur).pos <= final(cur).pos,
        match r {
            Ok(v) => {
                &&& spec_parse_element_value_pair(old(cur).data@, old(cur).pos as int, depth as int)
                    matches Ok(s)
                &&& s == (spec_element_value_pair_view(v), final(cur).pos as int)
            },
            Err(e) => {
                &&& spec_parse_element_value_pair(old(cur).data@, old(cur).pos as int, depth as int)
                    matches Err(se)
                &&& se == e@
            },
        },
    decreases depth as int, 2int, 0int,
{
    let element_name_index = cur.read_u16()?;
    let value = element_value(cur, depth)?;
    Ok(ElementValuePair { element_name_index, value })
}

/// Decode one annotation at a remaining depth budget.
#[verifier::loop_isolation(false)]
pub fn annotation(cur: &mut Cursor, depth: u32) -> (r: Result<Annotation, DecodeError>)
    requires
        old(cur).wf(),
    ensures
        final(cur).data@ == old(cur).data@,
        final(cur).wf(),
        old(cur).pos <= final(cur).pos,
        match r {
            Ok(a) => {
                &&& spec_parse_annotation(old(cur).data@, old(cur).pos as int, depth as int)
                    matches Ok(s)
                &&& s == (spec_annotation_view(a), final(cur).pos as int)
            },
            Err(e) => {
                &&& spec_parse_annotation(old(cur).data@, old(cur).pos as int, depth as int)
                    matches Err(se)
                &&& se == e@
            },
        },
    decreases depth as int, 4int, 0int,
{
    if depth == 0 {
        return Err(
            DecodeError { kind: DecodeErrorKind::RecursionLimitExceeded, offset: cur.pos },
        );
    }
    let ghost data = old(cur).data@;
    let type_index = cur.read_u16()?;
    let count = cur.read_u16()?;
    if (count as usize) * 5 > cur.remaining() {
        return Err(
            DecodeError {
                kind: DecodeErrorKind::CollectionLengthExceedsRemainingInput,
                offset: cur.pos,
            },
        );
    }
    let ghost p_start = cur.pos as int;
    let mut element_value_pairs: Vec<ElementValuePair> = Vec::new();
    proof {
        assert(spec_pairs_view(element_value_pairs@) =~= Seq::<SpecElementValuePair>::empty());
    }
    while element_value_pairs.len() < count as usize
        invariant
            cur.wf(),
            cur.data@ == data,
            old(cur).pos <= cur.pos,
            element_value_pairs@.len() <= count as usize,
            spec_pairs_view(element_value_pairs@).len() == element_value_pairs@.len(),
            spec_parse_element_value_pair_list(
                data,
                cur.pos as int,
                spec_pairs_view(element_value_pairs@),
                count as int,
                depth as int,
            ) == spec_parse_element_value_pair_list(
                data,
                p_start,
                Seq::empty(),
                count as int,
                depth as int,
            ),
        decreases count as int - element_value_pairs@.len(),
    {
        let p = element_value_pair(cur, depth)?;
        proof {
            lemma_pairs_view_push(element_value_pairs@, p);
        }
        element_value_pairs.push(p);
    }
    Ok(Annotation { type_index, element_value_pairs })
}

/// Decode `n` annotations in a row.
#[verifier::loop_isolation(false)]
pub fn annotation_list(cur: &mut Cursor, n: u16, depth: u32) -> (r: Result<
    Vec<Annotation>,
    DecodeError,
>)
    requires
        old(cur).wf(),
    ensures
        final(cur).data@ == old(cur).data@,
        final(cur).wf(),
        old(cur).pos <= final(cur).pos,
        match r {
            Ok(v) => {
                &&& spec_parse_annotation_list(
                    old(cur).data@,
                    old(cur).pos as int,
                    Seq::empty(),
                    n as int,
                    depth as int,
                ) matches Ok(s)
                &&& s == (spec_annotations_view(v@), final(cur).pos as int)
            },
            Err(e) => {
                &&& spec_parse_annotation_list(
                    old(cur).data@,
                    old(cur).pos as int,
                    Seq::empty(),
                    n as int,
                    depth as int,
                ) matches Err(se)
                &&& se == e@
            },
        },
    decreases depth as int, 5int, 0int,
{
    let ghost data = old(cur).data@;
    let ghost p_start = old(cur).pos as int;
    let mut out: Vec<Annotation> = Vec::new();
    proof {
        assert(spec_annotations_view(out@) =~= Seq::<SpecAnnotation>::empty());
    }
    while out.len() < n as usize
        invariant
            cur.wf(),
            cur.data@ == data,
            old(cur).pos <= cur.pos,
            out@.len() <= n as usize,
            spec_parse_annotation_list(
                data,
                cur.pos as int,
                spec_annotations_view(out@),
                n as int,
                depth as int,
            ) == spec_parse_annotation_list(data, p_start, Seq::empty(), n as int, depth as int),
        decreases n as int - out@.len(),
    {
        let a = annotation(cur, depth)?;
        proof {
            lemma_annotations_view_push(out@, a);
        }
        out.push(a);
    }
    Ok(out)
}

/// Parsing one element value from a prefix of the buffer.
#[verifier::rlimit(100)]
pub proof fn lemma_prefix_element_value(data: Seq<u8>, k: int, pos: int, depth: int)
    requires
        0 <= pos <= k <= data.len(),
    ensures
        spec_parse_element_value(data, pos, depth) matches Ok(s) ==> pos + 3 <= s.1 <= data.len(),
        spec_parse_element_value(data, pos, depth) matches Ok(s) ==> (if s.1 <= k {
            spec_parse_element_value(data.take(k), pos, depth) == spec_parse_element_value(
                data,
                pos,
                depth,
            )
        } else {
            spec_parse_element_value(data.take(k), pos, depth) matches Err(e)
                && crate::error::spec_is_exhaustion_error(e)
        }),
    decreases depth, 0int, 0int,
{
    if depth <= 0 {
    } else {
        crate::cursor::lemma_prefix_read_u8(data, k, pos);
        match spec_read_u8(data, pos) {
            Err(_) => {},
            Ok((tag_byte, p)) => {
                let tag = ElementValueTag::spec_from_byte(tag_byte);
                if tag.spec_is_const_kind() || tag is Class {
                    if p <= k {
                        crate::cursor::lemma_prefix_read_u16(data, k, p);
                    } else {
                        crate::cursor::lemma_prefix_read_u16(data, data.len() as int, p);
                    }
                } else if tag is EnumConstant {
                    if p <= k {
                        crate::cursor::lemma_prefix_read_u16(data, k, p);
                    } else {
                        crate::cursor::lemma_prefix_read_u16(data, data.len() as int, p);
                    }
                    match spec_read_u16(data, p) {
                        Err(_) => {},
                        Ok((_, p2)) => {
                            if p2 <= k {
                                crate::cursor::lemma_prefix_read_u16(data, k, p2);
                            } else {
                                crate::cursor::lemma_prefix_read_u16(data, data.len() as int, p2);
                            }
                        },
                    }
                } else if tag is Annotation {
                    if p <= k {
                        lemma_prefix_annotation(data, k, p, depth - 1);
                    } else {
                        lemma_prefix_annotation(data, data.len() as int, p, depth - 1);
                    }
                } else if tag is Array {
                    if p <= k {
                        crate::cursor::lemma_prefix_read_u16(data, k, p);
                    } else {
                        crate::cursor::lemma_prefix_read_u16(data, data.len() as int, p);
                    }
                    match spec_read_u16(data, p) {
                        Err(_) => {},
                        Ok((count, p2)) => {
                            if count * 3 > data.len() - p2 {
                            } else {
                                lemma_prefix_element_value_list(
                                    data,
                                    data.len() as int,
                                    p2,
                                    Seq::empty(),
                                    count as int,
                                    depth - 1,
                                );
                                if p2 <= k {
                                    lemma_prefix_element_value_list(
                                        data,
                                        k,
                                        p2,
                                        Seq::empty(),
                                        count as int,
                                        depth - 1,
                                    );
                                }
                            }
                        },
                    }
                }
            },
        }
    }
}

/// Parsing an element value list from a prefix of the buffer. Each value
/// still to read accounts for at least 3 consumed bytes.
proof fn lemma_prefix_element_value_list(
    data: Seq<u8>,
    k: int,
    pos: int,
    acc: Seq<SpecElementValue>,
    n: int,
    depth: int,
)
    requires
        0 <= pos <= k <= data.len(),
    ensures
        spec_parse_element_value_list(data, pos, acc, n, depth) matches Ok(s) ==> s.1 <= data.len()
            && s.1 >= pos + (if acc.len() < n {
            3 * (n - acc.len())
        } else {
            0
        }),
        spec_parse_element_value_list(data, pos, acc, n, depth) matches Ok(s) ==> (if s.1 <= k {
            spec_parse_element_value_list(data.take(k), pos, acc, n, depth)
                == spec_parse_element_value_list(data, pos, acc, n, depth)
        } else {
            spec_parse_element_value_list(data.take(k), pos, acc, n, depth) matches Err(e)
                && crate::error::spec_is_exhaustion_error(e)
        }),
    decreases depth, 1int, n - acc.len(),
{
    if acc.len() >= n {
    } else {
        lemma_prefix_element_value(data, k, pos, depth);
        match spec_parse_element_value(data, pos, depth) {
            Err(_) => {},
            Ok((v, p)) => {
                if p <= k {
                    lemma_prefix_element_value_list(data, k, p, acc.push(v), n, depth);
                } else {
                    lemma_prefix_element_value_list(
                        data,
                        data.len() as int,
                        p,
                        acc.push(v),
                        n,
                        depth,
                    );
                }
            },
        }
    }
}

/// Parsing one named element value from a prefix of the buffer.
proof fn lemma_prefix_element_value_pair(data: Seq<u8>, k: int, pos: int, depth: int)
    requires
        0 <= pos <= k <= data.len(),
    ensures
        spec_parse_element_value_pair(data, pos, depth) matches Ok(s) ==> pos + 5 <= s.1
            <= data.len(),
        spec_parse_element_value_pair(data, pos, depth) matches Ok(s) ==> (if s.1 <= k {
            spec_parse_element_value_pair(data.take(k), pos, depth)
                == spec_parse_element_value_pair(data, pos, depth)
        } else {
            spec_parse_element_value_pair(data.take(k), pos, depth) matches Err(e)
                && crate::error::spec_is_exhaustion_error(e)
        }),
    decreases depth, 2int, 0int,
{
    crate::cursor::lemma_prefix_read_u16(data, k, pos);
    match spec_read_u16(data, pos) {
        Err(_) => {},
        Ok((_, p)) => {
            if p <= k {
                lemma_prefix_element_value(data, k, p, depth);
            } else {
                lemma_prefix_element_value(data, data.len() as int, p, depth);
            }
        },
    }
}

/// Parsing a named element value list from a prefix of the buffer. Each
/// pair still to read accounts for at least 5 consumed bytes.
proof fn lemma_prefix_element_value_pair_list(
    data: Seq<u8>,
    k: int,
    pos: int,
    acc: Seq<SpecElementValuePair>,
    n: int,
    depth: int,
)
    requires
        0 <= pos <= k <= data.len(),
    ensures
        spec_parse_element_value_pair_list(data, pos, acc, n, depth) matches Ok(s) ==> s.1
            <= data.len() && s.1 >= pos + (if acc.len() < n {
            5 * (n - acc.len())
        } else {
            0
        }),
        spec_parse_element_value_pair_list(data, pos, acc, n, depth) matches Ok(s) ==> (if s.1
            <= k {
            spec_parse_element_value_pair_list(data.take(k), pos, acc, n, depth)
                == spec_parse_element_value_pair_list(data, pos, acc, n, depth)
        } else {
            spec_parse_element_value_pair_list(data.take(k), pos, acc, n, depth) matches Err(e)
                && crate::error::spec_is_exhaustion_error(e)
        }),
    decreases depth, 3int, n - acc.len(),
{
    if acc.len() >= n {
    } else {
        lemma_prefix_element_value_pair(data, k, pos, depth);
        match spec_parse_element_value_pair(data, pos, depth) {
            Err(_) => {},
            Ok((v, p)) => {
                if p <= k {
                    lemma_prefix_element_value_pair_list(data, k, p, acc.push(v), n, depth);
                } else {
                    lemma_prefix_element_value_pair_list(
                        data,
                        data.len() as int,
                        p,
                        acc.push(v),
                        n,
                        depth,
                    );
                }
            },
        }
    }
}

/// Parsing one annotation from a prefix of the buffer.
proof fn lemma_prefix_annotation(data: Seq<u8>, k: int, pos: int, depth: int)
    requires
        0 <= pos <= k <= data.len(),
    ensures
        spec_parse_annotation(data, pos, depth) matches Ok(s) ==> pos + 4 <= s.1 <= data.len(),
        spec_parse_annotation(data, pos, depth) matches Ok(s) ==> (if s.1 <= k {
            spec_parse_annotation(data.take(k), pos, depth) == spec_parse_annotation(
                data,
                pos,
                depth,
            )
        } else {
            spec_parse_annotation(data.take(k), pos, depth) matches Err(e)
                && crate::error::spec_is_exhaustion_error(e)
        }),
    decreases depth, 4int, 0int,
{
    if depth <= 0 {
    } else {
        crate::cursor::lemma_prefix_read_u16(data, k, pos);
        match spec_read_u16(data, pos) {
            Err(_) => {},
            Ok((_, p)) => {
                if p <= k {
                    crate::cursor::lemma_prefix_read_u16(data, k, p);
                } else {
                    crate::cursor::lemma_prefix_read_u16(data, data.len() as int, p);
                }
                match spec_read_u16(data, p) {
                    Err(_) => {},
                    Ok((count, p2)) => {
                        if count * 5 > data.len() - p2 {
                        } else {
                            lemma_prefix_element_value_pair_list(
                                data,
                                data.len() as int,
                                p2,
                                Seq::empty(),
                                count as int,
                                depth,
                            );
                            if p2 <= k {
                                lemma_prefix_element_value_pair_list(
                                    data,
                                    k,
                                    p2,
                                    Seq::empty(),
                                    count as int,
                                    depth,
                                );
                            }
                        }
                    },
                }
            },
        }
    }
}

/// Parsing an annotation list from a prefix of the buffer. Each
/// annotation still to read accounts for at least 4 consumed bytes.
pub proof fn lemma_prefix_annotation_list(
    data: Seq<u8>,
    k: int,
    pos: int,
    acc: Seq<SpecAnnotation>,
    n: int,
    depth: int,
)
    requires
        0 <= pos <= k <= data.len(),
    ensures
        spec_parse_annotation_list(data, pos, acc, n, depth) matches Ok(s) ==> s.1 <= data.len()
            && s.1 >= pos + (if acc.len() < n {
            4 * (n - acc.len())
        } else {
            0
        }),
        spec_parse_annotation_list(data, pos, acc, n, depth) matches Ok(s) ==> (if s.1 <= k {
            spec_parse_annotation_list(data.take(k), pos, acc, n, depth)
                == spec_parse_annotation_list(data, pos, acc, n, depth)
        } else {
            spec_parse_annotation_list(data.take(k), pos, acc, n, depth) matches Err(e)
                && crate::error::spec_is_exhaustion_error(e)
        }),
    decreases depth, 5int, n - acc.len(),
{
    if acc.len() >= n {
    } else {
        lemma_prefix_annotation(data, k, pos, depth);
        match spec_parse_annotation(data, pos, depth) {
            Err(_) => {},
            Ok((a, p)) => {
                if p <= k {
                    lemma_prefix_annotation_list(data, k, p, acc.push(a), n, depth);
                } else {
                    lemma_prefix_annotation_list(data, data.len() as int, p, acc.push(a), n, depth);
                }
            },
        }
    }
}

} // verus!
