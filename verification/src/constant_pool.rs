//! The constant table: a sparse, 1-indexed mapping from index to constant
//! entry, and its decoder.
//!
//! The format stores a count `N` and then `N - 1` entries numbered from 1.
//! A Long or Double entry occupies its own index and renders the index
//! right after it unusable: no entry is ever decoded there, and a lookup
//! of that index fails. The table therefore holds `Option` slots, with
//! `None` at index 0 and at every gap.

use vstd::prelude::*;

use crate::cursor::{spec_read_u8, spec_read_u16, spec_read_u32, spec_read_u64, spec_read_bytes,
    Cursor};
use crate::error::{DecodeError, DecodeErrorKind, SpecDecodeError};

verus! {

/// One entry of the constant table. Numeric entries hold decoded semantic
/// values: `Integer` and `Long` as two's-complement integers, `Float` and
/// `Double` as the raw bit pattern of the IEEE-754 encoding, to be
/// reinterpreted by callers that want the floating-point value.
#[derive(Debug, Clone)]
pub enum ConstantPoolType {
    Class { name_index: u16 },
    Fieldref { class_index: u16, name_and_type_index: u16 },
    Methodref { class_index: u16, name_and_type_index: u16 },
    InterfaceMethodref { class_index: u16, name_and_type_index: u16 },
    StringRef { string_index: u16 },
    Integer { value: i32 },
    Float { bits: u32 },
    Long { value: i64 },
    Double { bits: u64 },
    NameAndType { name_index: u16, descriptor_index: u16 },
    Utf8 { bytes: Vec<u8> },
    MethodHandle { reference_kind: u8, reference_index: u16 },
    MethodType { descriptor_index: u16 },
    InvokeDynamic { bootstrap_method_attr_index: u16, name_and_type_index: u16 },
}

/// Mathematical model of a constant table entry.
pub enum SpecConstantPoolType {
    Class { name_index: u16 },
    Fieldref { class_index: u16, name_and_type_index: u16 },
    Methodref { class_index: u16, name_and_type_index: u16 },
    InterfaceMethodref { class_index: u16, name_and_type_index: u16 },
    StringRef { string_index: u16 },
    Integer { value: i32 },
    Float { bits: u32 },
    Long { value: i64 },
    Double { bits: u64 },
    NameAndType { name_index: u16, descriptor_index: u16 },
    Utf8 { bytes: Seq<u8> },
    MethodHandle { reference_kind: u8, reference_index: u16 },
    MethodType { descriptor_index: u16 },
    InvokeDynamic { bootstrap_method_attr_index: u16, name_and_type_index: u16 },
}

impl View for ConstantPoolType {
    type V = SpecConstantPoolType;

    open spec fn view(&self) -> SpecConstantPoolType {
        match self {
            ConstantPoolType::Class { name_index } => (SpecConstantPoolType::Class {
                name_index: *name_index,
            }),
            ConstantPoolType::Fieldref { class_index, name_and_type_index } => (
            SpecConstantPoolType::Fieldref {
                class_index: *class_index,
                name_and_type_index: *name_and_type_index,
            }),
            ConstantPoolType::Methodref { class_index, name_and_type_index } => (
            SpecConstantPoolType::Methodref {
                class_index: *class_index,
                name_and_type_index: *name_and_type_index,
            }),
            ConstantPoolType::InterfaceMethodref { class_index, name_and_type_index } => (
            SpecConstantPoolType::InterfaceMethodref {
                class_index: *class_index,
                name_and_type_index: *name_and_type_index,
            }),
            ConstantPoolType::StringRef { string_index } => (SpecConstantPoolType::StringRef {
                string_index: *string_index,
            }),
            ConstantPoolType::Integer { value } => (SpecConstantPoolType::Integer {
                value: *value,
            }),
            ConstantPoolType::Float { bits } => (SpecConstantPoolType::Float { bits: *bits }),
            ConstantPoolType::Long { value } => (SpecConstantPoolType::Long { value: *value }),
            ConstantPoolType::Double { bits } => (SpecConstantPoolType::Double { bits: *bits }),
            ConstantPoolType::NameAndType { name_index, descriptor_index } => (
            SpecConstantPoolType::NameAndType {
                name_index: *name_index,
                descriptor_index: *descriptor_index,
            }),
            ConstantPoolType::Utf8 { bytes } => (SpecConstantPoolType::Utf8 { bytes: bytes@ }),
            ConstantPoolType::MethodHandle { reference_kind, reference_index } => (
            SpecConstantPoolType::MethodHandle {
                reference_kind: *reference_kind,
                reference_index: *reference_index,
            }),
            ConstantPoolType::MethodType { descriptor_index } => (SpecConstantPoolType::MethodType {
                descriptor_index: *descriptor_index,
            }),
            ConstantPoolType::InvokeDynamic { bootstrap_method_attr_index, name_and_type_index } => (
            SpecConstantPoolType::InvokeDynamic {
                bootstrap_method_attr_index: *bootstrap_method_attr_index,
                name_and_type_index: *name_and_type_index,
            }),
        }
    }
}

/// Whether an entry is wide, occupying two slots of the index space.
pub open spec fn spec_is_wide(e: SpecConstantPoolType) -> bool {
    e is Long || e is Double
}

impl ConstantPoolType {
    /// Whether this entry is wide, occupying two slots of the index space.
    pub fn is_wide(&self) -> (r: bool)
        ensures
            r == spec_is_wide(self@),
    {
        match self {
            ConstantPoolType::Long { .. } => true,
            ConstantPoolType::Double { .. } => true,
            _ => false,
        }
    }
}

/// The tag byte of a constant table entry.
#[derive(Debug, Clone, Copy, PartialEq, Eq, Structural)]
pub enum ConstantPoolTag {
    Class,
    Fieldref,
    Methodref,
    InterfaceMethodref,
    StringRef,
    Integer,
    Float,
    Long,
    Double,
    NameAndType,
    Utf8,
    MethodHandle,
    MethodType,
    InvokeDynamic,
}

impl ConstantPoolTag {
    /// The fixed 14-way mapping from tag byte to tag; any other byte is
    /// undefined and makes the decode fail.
    pub open spec fn spec_from_byte(b: u8) -> Option<ConstantPoolTag> {
        match b {
            1u8 => Some(ConstantPoolTag::Utf8),
            3u8 => Some(ConstantPoolTag::Integer),
            4u8 => Some(ConstantPoolTag::Float),
            5u8 => Some(ConstantPoolTag::Long),
            6u8 => Some(ConstantPoolTag::Double),
            7u8 => Some(ConstantPoolTag::Class),
            8u8 => Some(ConstantPoolTag::StringRef),
            9u8 => Some(ConstantPoolTag::Fieldref),
            10u8 => Some(ConstantPoolTag::Methodref),
            11u8 => Some(ConstantPoolTag::InterfaceMethodref),
            12u8 => Some(ConstantPoolTag::NameAndType),
            15u8 => Some(ConstantPoolTag::MethodHandle),
            16u8 => Some(ConstantPoolTag::MethodType),
            18u8 => Some(ConstantPoolTag::InvokeDynamic),
            _ => None,
        }
    }

    /// Map a tag byte to its tag, or `None` for a byte outside the
    /// defined set.
    pub fn from_byte(b: u8) -> (t: Option<ConstantPoolTag>)
        ensures
            t == ConstantPoolTag::spec_from_byte(b),
    {
        match b {
            1u8 => Some(ConstantPoolTag::Utf8),
            3u8 => Some(ConstantPoolTag::Integer),
            4u8 => Some(ConstantPoolTag::Float),
            5u8 => Some(ConstantPoolTag::Long),
            6u8 => Some(ConstantPoolTag::Double),
            7u8 => Some(ConstantPoolTag::Class),
            8u8 => Some(ConstantPoolTag::StringRef),
            9u8 => Some(ConstantPoolTag::Fieldref),
            10u8 => Some(ConstantPoolTag::Methodref),
            11u8 => Some(ConstantPoolTag::InterfaceMethodref),
            12u8 => Some(ConstantPoolTag::NameAndType),
            15u8 => Some(ConstantPoolTag::MethodHandle),
            16u8 => Some(ConstantPoolTag::MethodType),
            18u8 => Some(ConstantPoolTag::InvokeDynamic),
            _ => None,
        }
    }
}

/// The model of one table slot.
pub open spec fn spec_slot_view(e: Option<ConstantPoolType>) -> Option<SpecConstantPoolType> {
    match e {
        Some(c) => Some(c@),
        None => None,
    }
}

/// The model of a sequence of table slots.
pub open spec fn spec_slots_view(s: Seq<Option<ConstantPoolType>>) -> Seq<
    Option<SpecConstantPoolType>,
> {
    Seq::new(s.len(), |i: int| spec_slot_view(s[i]))
}

/// The sparse, 1-indexed constant table. Slot 0 is always empty; a slot
/// holding `None` above index 0 is the gap after a wide entry.
#[derive(Debug)]
pub struct ConstantTable {
    pub entries: Vec<Option<ConstantPoolType>>,
}

impl View for ConstantTable {
    type V = Seq<Option<SpecConstantPoolType>>;

    open spec fn view(&self) -> Seq<Option<SpecConstantPoolType>> {
        spec_slots_view(self.entries@)
    }
}

/// Whether `i` names an entry of the table: inside the index space,
/// not 0, and not a gap slot.
pub open spec fn spec_valid_index(t: Seq<Option<SpecConstantPoolType>>, i: int) -> bool {
    0 < i < t.len() && t[i] is Some
}

impl ConstantTable {
    /// An empty table, with no index space at all.
    pub fn empty() -> (t: ConstantTable)
        ensures
            t@ == Seq::<Option<SpecConstantPoolType>>::empty(),
    {
        let t = ConstantTable { entries: Vec::new() };
        proof {
            assert(t@ =~= Seq::<Option<SpecConstantPoolType>>::empty());
        }
        t
    }

    /// How many slots the index space has, gaps and slot 0 included.
    pub fn slot_count(&self) -> (n: usize)
        ensures
            n == self@.len(),
    {
        self.entries.len()
    }

    /// Look up the entry at `i`. Index 0, an index out of range, and the
    /// gap slot after a wide entry all fail with
    /// [`DecodeErrorKind::InvalidConstantPoolIndex`].
    pub fn get(&self, index: usize) -> (r: Result<&ConstantPoolType, DecodeErrorKind>)
        ensures
            match r {
                Ok(e) => spec_valid_index(self@, index as int) && self@[index as int] == Some(e@),
                Err(k) => !spec_valid_index(self@, index as int)
                    && k == DecodeErrorKind::InvalidConstantPoolIndex,
            },
    {
        if index == 0 || index >= self.entries.len() {
            Err(DecodeErrorKind::InvalidConstantPoolIndex)
        } else {
            match &self.entries[index] {
                Some(e) => Ok(e),
                None => Err(DecodeErrorKind::InvalidConstantPoolIndex),
            }
        }
    }
}

/// The Utf8 bytes at index `i` of a table model, if `i` names a Utf8 entry.
pub open spec fn spec_get_utf8(t: Seq<Option<SpecConstantPoolType>>, i: int) -> Option<Seq<u8>> {
    if 0 < i < t.len() {
        match t[i] {
            Some(SpecConstantPoolType::Utf8 { bytes }) => Some(bytes),
            _ => None,
        }
    } else {
        None
    }
}

/// Resolve `index` to the byte content of a Utf8 entry. `None` if the
/// index does not name an entry or the entry is not Utf8.
pub fn get_utf8<'a>(constant_pool: &'a ConstantTable, index: usize) -> (r: Option<&'a Vec<u8>>)
    ensures
        match r {
            Some(b) => spec_get_utf8(constant_pool@, index as int) == Some(b@),
            None => spec_get_utf8(constant_pool@, index as int) is None,
        },
{
    if index == 0 || index >= constant_pool.entries.len() {
        None
    } else {
        match &constant_pool.entries[index] {
            Some(ConstantPoolType::Utf8 { bytes }) => Some(bytes),
            _ => None,
        }
    }
}

/// The name bytes of the Class entry at index `i` of a table model: the
/// Utf8 content its `name_index` points at.
pub open spec fn spec_resolve_class_name(t: Seq<Option<SpecConstantPoolType>>, i: int) -> Option<
    Seq<u8>,
> {
    if 0 < i < t.len() {
        match t[i] {
            Some(SpecConstantPoolType::Class { name_index }) => spec_get_utf8(
                t,
                name_index as int,
            ),
            _ => None,
        }
    } else {
        None
    }
}

/// Resolve `index` to a Class entry and then to the Utf8 bytes of its
/// name. `None` if either step does not lead to an entry of the right
/// shape.
pub fn resolve_class_name<'a>(constant_pool: &'a ConstantTable, index: usize) -> (r: Option<
    &'a Vec<u8>,
>)
    ensures
        match r {
            Some(b) => spec_resolve_class_name(constant_pool@, index as int) == Some(b@),
            None => spec_resolve_class_name(constant_pool@, index as int) is None,
        },
{
    if index == 0 || index >= constant_pool.entries.len() {
        None
    } else {
        match &constant_pool.entries[index] {
            Some(ConstantPoolType::Class { name_index }) => get_utf8(
                constant_pool,
                *name_index as usize,
            ),
            _ => None,
        }
    }
}

/// The 32-bit two's-complement value of the bit pattern `v`.
pub open spec fn spec_i32_of(v: u32) -> i32 {
    if v < 0x8000_0000 {
        v as i32
    } else {
        (v - 0x1_0000_0000) as i32
    }
}

/// The 64-bit two's-complement value of the bit pattern `v`.
pub open spec fn spec_i64_of(v: u64) -> i64 {
    if v < 0x8000_0000_0000_0000 {
        v as i64
    } else {
        (v - 0x1_0000_0000_0000_0000) as i64
    }
}

/// Reinterpret a 32-bit pattern as a two's-complement integer.
fn i32_of_bits(v: u32) -> (r: i32)
    ensures
        r == spec_i32_of(v),
{
    if v < 0x8000_0000 {
        v as i32
    } else {
        ((v as i64) - 0x1_0000_0000i64) as i32
    }
}

/// Reinterpret a 64-bit pattern as a two's-complement integer.
fn i64_of_bits(v: u64) -> (r: i64)
    ensures
        r == spec_i64_of(v),
{
    if v < 0x8000_0000_0000_0000 {
        v as i64
    } else {
        ((v as i128) - 0x1_0000_0000_0000_0000i128) as i64
    }
}

/// Reading two 16-bit indices in a row, the shared payload shape of the
/// three ref-like entries.
pub open spec fn spec_read_index_pair(data: Seq<u8>, pos: int) -> Result<
    ((u16, u16), int),
    SpecDecodeError,
> {
    match spec_read_u16(data, pos) {
        Err(e) => Err(e),
        Ok((first, p)) => match spec_read_u16(data, p) {
            Err(e) => Err(e),
            Ok((second, p2)) => Ok(((first, second), p2)),
        },
    }
}

/// Read two 16-bit indices in a row.
pub fn ref_info(cur: &mut Cursor) -> (r: Result<(u16, u16), DecodeError>)
    requires
        old(cur).wf(),
    ensures
        final(cur).data@ == old(cur).data@,
        final(cur).wf(),
        old(cur).pos <= final(cur).pos,
        match r {
            Ok(v) => {
                &&& spec_read_index_pair(old(cur).data@, old(cur).pos as int) matches Ok(s)
                &&& s == (v, final(cur).pos as int)
            },
            Err(e) => {
                &&& spec_read_index_pair(old(cur).data@, old(cur).pos as int) matches Err(se)
                &&& se == e@
            },
        },
{
    let first = cur.read_u16()?;
    let second = cur.read_u16()?;
    Ok((first, second))
}

/// Parsing the payload of one constant table entry, after its tag.
pub open spec fn spec_parse_cp_payload(data: Seq<u8>, pos: int, tag: ConstantPoolTag) -> Result<
    (SpecConstantPoolType, int),
    SpecDecodeError,
> {
    match tag {
        ConstantPoolTag::Class => match spec_read_u16(data, pos) {
            Err(e) => Err(e),
            Ok((name_index, p)) => Ok((SpecConstantPoolType::Class { name_index }, p)),
        },
        ConstantPoolTag::Fieldref => match spec_read_index_pair(data, pos) {
            Err(e) => Err(e),
            Ok(((class_index, name_and_type_index), p)) => Ok(
                (SpecConstantPoolType::Fieldref { class_index, name_and_type_index }, p),
            ),
        },
        ConstantPoolTag::Methodref => match spec_read_index_pair(data, pos) {
            Err(e) => Err(e),
            Ok(((class_index, name_and_type_index), p)) => Ok(
                (SpecConstantPoolType::Methodref { class_index, name_and_type_index }, p),
            ),
        },
        ConstantPoolTag::InterfaceMethodref => match spec_read_index_pair(data, pos) {
            Err(e) => Err(e),
            Ok(((class_index, name_and_type_index), p)) => Ok(
                (SpecConstantPoolType::InterfaceMethodref { class_index, name_and_type_index }, p),
            ),
        },
        ConstantPoolTag::StringRef => match spec_read_u16(data, pos) {
            Err(e) => Err(e),
            Ok((string_index, p)) => Ok((SpecConstantPoolType::StringRef { string_index }, p)),
        },
        ConstantPoolTag::Integer => match spec_read_u32(data, pos) {
            Err(e) => Err(e),
            Ok((v, p)) => Ok((SpecConstantPoolType::Integer { value: spec_i32_of(v) }, p)),
        },
        ConstantPoolTag::Float => match spec_read_u32(data, pos) {
            Err(e) => Err(e),
            Ok((v, p)) => Ok((SpecConstantPoolType::Float { bits: v }, p)),
        },
        ConstantPoolTag::Long => match spec_read_u64(data, pos) {
            Err(e) => Err(e),
            Ok((v, p)) => Ok((SpecConstantPoolType::Long { value: spec_i64_of(v) }, p)),
        },
        ConstantPoolTag::Double => match spec_read_u64(data, pos) {
            Err(e) => Err(e),
            Ok((v, p)) => Ok((SpecConstantPoolType::Double { bits: v }, p)),
        },
        ConstantPoolTag::NameAndType => match spec_read_index_pair(data, pos) {
            Err(e) => Err(e),
            Ok(((name_index, descriptor_index), p)) => Ok(
                (SpecConstantPoolType::NameAndType { name_index, descriptor_index }, p),
            ),
        },
        ConstantPoolTag::Utf8 => match spec_read_u16(data, pos) {
            Err(e) => Err(e),
            Ok((len, p)) => match spec_read_bytes(data, p, len as int) {
                Err(e) => Err(e),
                Ok((bytes, p2)) => Ok((SpecConstantPoolType::Utf8 { bytes }, p2)),
            },
        },
        ConstantPoolTag::MethodHandle => match spec_read_u8(data, pos) {
            Err(e) => Err(e),
            Ok((reference_kind, p)) => match spec_read_u16(data, p) {
                Err(e) => Err(e),
                Ok((reference_index, p2)) => Ok(
                    (SpecConstantPoolType::MethodHandle { reference_kind, reference_index }, p2),
                ),
            },
        },
        ConstantPoolTag::MethodType => match spec_read_u16(data, pos) {
            Err(e) => Err(e),
            Ok((descriptor_index, p)) => Ok(
                (SpecConstantPoolType::MethodType { descriptor_index }, p),
            ),
        },
        ConstantPoolTag::InvokeDynamic => match spec_read_index_pair(data, pos) {
            Err(e) => Err(e),
            Ok(((bootstrap_method_attr_index, name_and_type_index), p)) => Ok(
                (
                    SpecConstantPoolType::InvokeDynamic {
                        bootstrap_method_attr_index,
                        name_and_type_index,
                    },
                    p,
                ),
            ),
        },
    }
}

/// Parsing one constant table entry: tag byte, then its payload. A tag
/// byte outside the defined set fails with
/// [`DecodeErrorKind::UnknownConstantTag`] at the tag's offset.
pub open spec fn spec_parse_cp_entry(data: Seq<u8>, pos: int) -> Result<
    (SpecConstantPoolType, int),
    SpecDecodeError,
> {
    match spec_read_u8(data, pos) {
        Err(e) => Err(e),
        Ok((tag_byte, p)) => match ConstantPoolTag::spec_from_byte(tag_byte) {
            None => Err(
                SpecDecodeError { kind: DecodeErrorKind::UnknownConstantTag, offset: pos },
            ),
            Some(tag) => spec_parse_cp_payload(data, p, tag),
        },
    }
}

/// Decode one constant table entry.
pub fn constant_type(cur: &mut Cursor) -> (r: Result<ConstantPoolType, DecodeError>)
    requires
        old(cur).wf(),
    ensures
        final(cur).data@ == old(cur).data@,
        final(cur).wf(),
        old(cur).pos <= final(cur).pos,
        match r {
            Ok(e) => {
                &&& spec_parse_cp_entry(old(cur).data@, old(cur).pos as int) matches Ok(s)
                &&& s == (e@, final(cur).pos as int)
            },
            Err(e) => {
                &&& spec_parse_cp_entry(old(cur).data@, old(cur).pos as int) matches Err(se)
                &&& se == e@
            },
        },
{
    let tag_offset = cur.pos;
    let tag_byte = cur.read_u8()?;
    let tag = match ConstantPoolTag::from_byte(tag_byte) {
        Some(t) => t,
        None => {
            return Err(
                DecodeError { kind: DecodeErrorKind::UnknownConstantTag, offset: tag_offset },
            );
        },
    };
    match tag {
        ConstantPoolTag::Class => {
            let name_index = cur.read_u16()?;
            Ok(ConstantPoolType::Class { name_index })
        },
        ConstantPoolTag::Fieldref => {
            let (class_index, name_and_type_index) = ref_info(cur)?;
            Ok(ConstantPoolType::Fieldref { class_index, name_and_type_index })
        },
        ConstantPoolTag::Methodref => {
            let (class_index, name_and_type_index) = ref_info(cur)?;
            Ok(ConstantPoolType::Methodref { class_index, name_and_type_index })
        },
        ConstantPoolTag::InterfaceMethodref => {
            let (class_index, name_and_type_index) = ref_info(cur)?;
            Ok(ConstantPoolType::InterfaceMethodref { class_index, name_and_type_index })
        },
        ConstantPoolTag::StringRef => {
            let string_index = cur.read_u16()?;
            Ok(ConstantPoolType::StringRef { string_index })
        },
        ConstantPoolTag::Integer => {
            let v = cur.read_u32()?;
            Ok(ConstantPoolType::Integer { value: i32_of_bits(v) })
        },
        ConstantPoolTag::Float => {
            let bits = cur.read_u32()?;
            Ok(ConstantPoolType::Float { bits })
        },
        ConstantPoolTag::Long => {
            let v = cur.read_u64()?;
            Ok(ConstantPoolType::Long { value: i64_of_bits(v) })
        },
        ConstantPoolTag::Double => {
            let bits = cur.read_u64()?;
            Ok(ConstantPoolType::Double { bits })
        },
        ConstantPoolTag::NameAndType => {
            let (name_index, descriptor_index) = ref_info(cur)?;
            Ok(ConstantPoolType::NameAndType { name_index, descriptor_index })
        },
        ConstantPoolTag::Utf8 => {
            let len = cur.read_u16()?;
            let bytes = cur.take(len as usize)?;
            Ok(ConstantPoolType::Utf8 { bytes })
        },
        ConstantPoolTag::MethodHandle => {
            let reference_kind = cur.read_u8()?;
            let reference_index = cur.read_u16()?;
            Ok(ConstantPoolType::MethodHandle { reference_kind, reference_index })
        },
        ConstantPoolTag::MethodType => {
            let descriptor_index = cur.read_u16()?;
            Ok(ConstantPoolType::MethodType { descriptor_index })
        },
        ConstantPoolTag::InvokeDynamic => {
            let (bootstrap_method_attr_index, name_and_type_index) = ref_info(cur)?;
            Ok(ConstantPoolType::InvokeDynamic { bootstrap_method_attr_index, name_and_type_index })
        },
    }
}

/// Parsing entries until the table's index space holds `n` slots. A wide
/// entry is followed by its gap slot, except when it fills the last slot,
/// where no slot is left for a gap.
pub open spec fn spec_parse_cp_entries(
    data: Seq<u8>,
    pos: int,
    acc: Seq<Option<SpecConstantPoolType>>,
    n: int,
) -> Result<(Seq<Option<SpecConstantPoolType>>, int), SpecDecodeError>
    decreases n - acc.len(),
{
    if acc.len() >= n {
        Ok((acc, pos))
    } else {
        match spec_parse_cp_entry(data, pos) {
            Err(e) => Err(e),
            Ok((entry, p)) => {
                let acc2 = if spec_is_wide(entry) && acc.len() + 1 < n {
                    acc.push(Some(entry)).push(None)
                } else {
                    acc.push(Some(entry))
                };
                spec_parse_cp_entries(data, p, acc2, n)
            },
        }
    }
}

/// Parsing the whole constant table: the count `N`, then entries filling
/// the 1-indexed slots 1 to `N - 1`. A declared count whose entries could
/// not possibly fit in the remaining input fails at once with
/// [`DecodeErrorKind::CollectionLengthExceedsRemainingInput`].
pub open spec fn spec_parse_constant_pool(data: Seq<u8>, pos: int) -> Result<
    (Seq<Option<SpecConstantPoolType>>, int),
    SpecDecodeError,
> {
    match spec_read_u16(data, pos) {
        Err(e) => Err(e),
        Ok((count, p)) => if count == 0 {
            Ok((Seq::empty(), p))
        } else if (count - 1) * 3 > data.len() - p {
            Err(
                SpecDecodeError {
                    kind: DecodeErrorKind::CollectionLengthExceedsRemainingInput,
                    offset: p,
                },
            )
        } else {
            spec_parse_cp_entries(data, p, seq![Option::<SpecConstantPoolType>::None], count as int)
        },
    }
}

proof fn lemma_slots_view_push(s: Seq<Option<ConstantPoolType>>, x: Option<ConstantPoolType>)
    ensures
        spec_slots_view(s.push(x)) == spec_slots_view(s).push(spec_slot_view(x)),
{
    assert(spec_slots_view(s.push(x)) =~= spec_slots_view(s).push(spec_slot_view(x)));
}

/// Decode the constant table: count, then tagged entries, with the index
/// space advancing by 2 after each wide entry.
#[verifier::loop_isolation(false)]
pub fn constant_pool(cur: &mut Cursor) -> (r: Result<ConstantTable, DecodeError>)
    requires
        old(cur).wf(),
    ensures
        final(cur).data@ == old(cur).data@,
        final(cur).wf(),
        old(cur).pos <= final(cur).pos,
        match r {
            Ok(t) => {
                &&& spec_parse_constant_pool(old(cur).data@, old(cur).pos as int) matches Ok(s)
                &&& s == (t@, final(cur).pos as int)
            },
            Err(e) => {
                &&& spec_parse_constant_pool(old(cur).data@, old(cur).pos as int) matches Err(se)
                &&& se == e@
            },
        },
{
    let ghost data = old(cur).data@;
    let count = cur.read_u16()?;
    if count == 0 {
        return Ok(ConstantTable::empty());
    }
    let rem = cur.remaining();
    if (count as usize - 1) * 3 > rem {
        return Err(
            DecodeError {
                kind: DecodeErrorKind::CollectionLengthExceedsRemainingInput,
                offset: cur.pos,
            },
        );
    }
    let ghost p_start = cur.pos as int;
    let mut entries: Vec<Option<ConstantPoolType>> = Vec::new();
    entries.push(None);
    let ghost acc_init = seq![Option::<SpecConstantPoolType>::None];
    proof {
        assert(spec_slots_view(entries@) =~= acc_init);
    }
    while entries.len() < count as usize
        invariant
            cur.wf(),
            cur.data@ == data,
            old(cur).pos <= cur.pos,
            1 <= entries@.len() <= count as usize,
            spec_parse_cp_entries(data, cur.pos as int, spec_slots_view(entries@), count as int)
                == spec_parse_cp_entries(data, p_start, acc_init, count as int),
        decreases count as int - entries@.len(),
    {
        let ghost pos_here = cur.pos as int;
        let ghost acc_here = spec_slots_view(entries@);
        let entry = match constant_type(cur) {
            Ok(e) => e,
            Err(e) => {
                return Err(e);
            },
        };
        let wide = entry.is_wide();
        let ghost entry_view = entry@;
        proof {
            lemma_slots_view_push(entries@, Some(entry));
        }
        entries.push(Some(entry));
        if wide && entries.len() < count as usize {
            proof {
                lemma_slots_view_push(entries@, None);
            }
            entries.push(None);
        }
        proof {
            assert(spec_parse_cp_entries(data, pos_here, acc_here, count as int)
                == spec_parse_cp_entries(
                data,
                cur.pos as int,
                spec_slots_view(entries@),
                count as int,
            ));
        }
    }
    Ok(ConstantTable { entries })
}

/// Every slot right after a wide entry is a gap: no entry sits there.
pub open spec fn spec_gaps_after_wide(t: Seq<Option<SpecConstantPoolType>>) -> bool {
    forall|j: int|
        0 <= j && j + 1 < t.len() ==> ((#[trigger] t[j]) matches Some(e) && spec_is_wide(e)
            ==> t[j + 1] is None)
}

/// The invariant the entry loop maintains: gaps follow wide entries, and
/// while slots remain to fill, the last slot is never a gapless wide
/// entry.
spec fn spec_cp_acc_invariant(acc: Seq<Option<SpecConstantPoolType>>, n: int) -> bool {
    &&& spec_gaps_after_wide(acc)
    &&& acc.len() < n && acc.len() > 0 ==> !(acc.last() matches Some(e) && spec_is_wide(e))
}

proof fn lemma_cp_entries_gaps(
    data: Seq<u8>,
    pos: int,
    acc: Seq<Option<SpecConstantPoolType>>,
    n: int,
)
    requires
        spec_cp_acc_invariant(acc, n),
    ensures
        spec_parse_cp_entries(data, pos, acc, n) matches Ok(s) ==> spec_gaps_after_wide(s.0),
    decreases n - acc.len(),
{
    if acc.len() >= n {
    } else {
        match spec_parse_cp_entry(data, pos) {
            Err(_) => {},
            Ok((entry, p)) => {
                let acc2 = if spec_is_wide(entry) && acc.len() + 1 < n {
                    acc.push(Some(entry)).push(None)
                } else {
                    acc.push(Some(entry))
                };
                assert(spec_cp_acc_invariant(acc2, n)) by {
                    assert forall|j: int| 0 <= j && j + 1 < acc2.len() implies ((
                    #[trigger] acc2[j]) matches Some(e) && spec_is_wide(e) ==> acc2[j + 1]
                        is None) by {
                        if j + 1 < acc.len() {
                            assert(acc2[j] == acc[j]);
                            assert(acc2[j + 1] == acc[j + 1]);
                        } else if j + 1 == acc.len() {
                            assert(acc2[j] == acc[j]);
                            assert(acc[j] == acc.last());
                        }
                    }
                }
                lemma_cp_entries_gaps(data, p, acc2, n);
            },
        }
    }
}

/// A wide (Long or Double) entry occupies its own slot and renders the
/// slot after it unusable: in any decoded table, the slot right after a
/// wide entry holds no entry, so looking that index up fails.
pub proof fn lemma_wide_entry_gap(data: Seq<u8>, pos: int, i: int)
    requires
        spec_parse_constant_pool(data, pos) matches Ok(s),
        spec_parse_constant_pool(data, pos) matches Ok(s) ==> {
            &&& 0 < i
            &&& i + 1 < s.0.len()
            &&& s.0[i] matches Some(e) && spec_is_wide(e)
        },
    ensures
        spec_parse_constant_pool(data, pos) matches Ok(s) ==> {
            &&& s.0[i + 1] is None
            &&& !spec_valid_index(s.0, i + 1)
        },
{
    match spec_read_u16(data, pos) {
        Err(_) => {},
        Ok((count, p)) => {
            if count == 0 {
            } else if (count - 1) * 3 > data.len() - p {
            } else {
                let acc0 = seq![Option::<SpecConstantPoolType>::None];
                assert(spec_cp_acc_invariant(acc0, count as int));
                lemma_cp_entries_gaps(data, p, acc0, count as int);
            }
        },
    }
}

/// Parsing an entry payload from a prefix of the buffer: same result when
/// it fits, exhaustion when it does not.
#[verifier::rlimit(100)]
proof fn lemma_prefix_cp_payload(data: Seq<u8>, k: int, pos: int, tag: ConstantPoolTag)
    requires
        0 <= pos <= k <= data.len(),
    ensures
        spec_parse_cp_payload(data, pos, tag) matches Ok(s) ==> pos + 2 <= s.1 <= data.len(),
        spec_parse_cp_payload(data, pos, tag) matches Ok(s)
            ==> ((tag is Long || tag is Double) ==> s.1 == pos + 8),
        spec_parse_cp_payload(data, pos, tag) matches Ok(s) ==> (if s.1 <= k {
            spec_parse_cp_payload(data.take(k), pos, tag) == spec_parse_cp_payload(data, pos, tag)
        } else {
            spec_parse_cp_payload(data.take(k), pos, tag) matches Err(e)
                && crate::error::spec_is_exhaustion_error(e)
        }),
{
    crate::cursor::lemma_prefix_read_u8(data, k, pos);
    crate::cursor::lemma_prefix_read_u16(data, k, pos);
    crate::cursor::lemma_prefix_read_u32(data, k, pos);
    crate::cursor::lemma_prefix_read_u64(data, k, pos);
    match tag {
        ConstantPoolTag::Fieldref | ConstantPoolTag::Methodref | ConstantPoolTag::InterfaceMethodref
            | ConstantPoolTag::NameAndType | ConstantPoolTag::InvokeDynamic => {
            match spec_read_u16(data, pos) {
                Err(_) => {},
                Ok((_, p)) => {
                    if p <= k {
                        crate::cursor::lemma_prefix_read_u16(data, k, p);
                    }
                },
            }
        },
        ConstantPoolTag::Utf8 => {
            match spec_read_u16(data, pos) {
                Err(_) => {},
                Ok((len, p)) => {
                    if p <= k {
                        crate::cursor::lemma_prefix_read_bytes(data, k, p, len as int);
                    }
                },
            }
        },
        ConstantPoolTag::MethodHandle => {
            match spec_read_u8(data, pos) {
                Err(_) => {},
                Ok((_, p)) => {
                    if p <= k {
                        crate::cursor::lemma_prefix_read_u16(data, k, p);
                    }
                },
            }
        },
        _ => {},
    }
}

/// Parsing one entry from a prefix of the buffer. An entry consumes at
/// least 3 bytes, a wide entry exactly 9.
proof fn lemma_prefix_cp_entry(data: Seq<u8>, k: int, pos: int)
    requires
        0 <= pos <= k <= data.len(),
    ensures
        spec_parse_cp_entry(data, pos) matches Ok(s) ==> pos + 3 <= s.1 <= data.len(),
        spec_parse_cp_entry(data, pos) matches Ok(s) ==> (spec_is_wide(s.0) ==> s.1 == pos + 9),
        spec_parse_cp_entry(data, pos) matches Ok(s) ==> (if s.1 <= k {
            spec_parse_cp_entry(data.take(k), pos) == spec_parse_cp_entry(data, pos)
        } else {
            spec_parse_cp_entry(data.take(k), pos) matches Err(e)
                && crate::error::spec_is_exhaustion_error(e)
        }),
{
    crate::cursor::lemma_prefix_read_u8(data, k, pos);
    match spec_read_u8(data, pos) {
        Err(_) => {},
        Ok((tag_byte, p)) => {
            match ConstantPoolTag::spec_from_byte(tag_byte) {
                None => {},
                Some(tag) => {
                    if p <= k {
                        lemma_prefix_cp_payload(data, k, p, tag);
                    } else {
                        lemma_prefix_cp_payload(data, data.len() as int, p, tag);
                    }
                },
            }
        },
    }
}

/// Parsing the remaining entries from a prefix of the buffer. Each slot
/// still to fill accounts for at least 3 consumed bytes.
proof fn lemma_prefix_cp_entries(
    data: Seq<u8>,
    k: int,
    pos: int,
    acc: Seq<Option<SpecConstantPoolType>>,
    n: int,
)
    requires
        0 <= pos <= k <= data.len(),
    ensures
        spec_parse_cp_entries(data, pos, acc, n) matches Ok(s) ==> s.1 <= data.len() && s.1 >= pos
            + (if acc.len() < n {
            3 * (n - acc.len())
        } else {
            0
        }),
        spec_parse_cp_entries(data, pos, acc, n) matches Ok(s) ==> (if s.1 <= k {
            spec_parse_cp_entries(data.take(k), pos, acc, n) == spec_parse_cp_entries(
                data,
                pos,
                acc,
                n,
            )
        } else {
            spec_parse_cp_entries(data.take(k), pos, acc, n) matches Err(e)
                && crate::error::spec_is_exhaustion_error(e)
        }),
    decreases n - acc.len(),
{
    if acc.len() >= n {
    } else {
        lemma_prefix_cp_entry(data, k, pos);
        match spec_parse_cp_entry(data, pos) {
            Err(_) => {},
            Ok((entry, p)) => {
                let acc2 = if spec_is_wide(entry) && acc.len() + 1 < n {
                    acc.push(Some(entry)).push(None)
                } else {
                    acc.push(Some(entry))
                };
                if p <= k {
                    lemma_prefix_cp_entries(data, k, p, acc2, n);
                } else {
                    lemma_prefix_cp_entries(data, data.len() as int, p, acc2, n);
                }
            },
        }
    }
}

/// Parsing the whole constant table from a prefix of the buffer: same
/// table when it fits, exhaustion when it does not.
pub proof fn lemma_prefix_constant_pool(data: Seq<u8>, k: int, pos: int)
    requires
        0 <= pos <= k <= data.len(),
    ensures
        spec_parse_constant_pool(data, pos) matches Ok(s) ==> pos + 2 <= s.1 <= data.len(),
        spec_parse_constant_pool(data, pos) matches Ok(s) ==> (if s.1 <= k {
            spec_parse_constant_pool(data.take(k), pos) == spec_parse_constant_pool(data, pos)
        } else {
            spec_parse_constant_pool(data.take(k), pos) matches Err(e)
                && crate::error::spec_is_exhaustion_error(e)
        }),
{
    crate::cursor::lemma_prefix_read_u16(data, k, pos);
    match spec_read_u16(data, pos) {
        Err(_) => {},
        Ok((count, p)) => {
            if count == 0 {
            } else if (count - 1) * 3 > data.len() - p {
            } else {
                let acc0 = seq![Option::<SpecConstantPoolType>::None];
                lemma_prefix_cp_entries(data, data.len() as int, p, acc0, count as int);
                if p <= k {
                    lemma_prefix_cp_entries(data, k, p, acc0, count as int);
                }
            }
        },
    }
}

} // verus!
