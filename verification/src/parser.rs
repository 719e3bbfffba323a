//! Top-level assembly of a class file: magic, version, constant table,
//! flags, self and super references, interface list, field list, method
//! list, and the top-level attribute list, in that fixed order over one
//! forward cursor.

use vstd::prelude::*;

use crate::attributes::{spec_parse_attributes, spec_attributes_view, attributes, Attribute,
    SpecAttribute, MAX_NESTING_DEPTH};
use crate::constant_pool::{spec_parse_constant_pool, constant_pool, ConstantTable,
    SpecConstantPoolType};
use crate::cursor::{spec_read_u16, spec_read_u32, Cursor};
use crate::error::{DecodeError, DecodeErrorKind, SpecDecodeError};

verus! {

/// The fixed magic number that opens every class file.
pub const CLASS_FILE_MAGIC: u32 = 0xCAFE_BABE;

/// The format version of a class file.
#[derive(Debug, Clone, Copy, PartialEq, Eq, Structural)]
pub struct Version {
    pub minor: u16,
    pub major: u16,
}

/// One field of the class: a fixed header plus an attribute list.
#[derive(Debug)]
pub struct FieldInfo {
    pub access_flags: u16,
    pub name_index: u16,
    pub descriptor_index: u16,
    pub attributes: Vec<Attribute>,
}

/// One method of the class: a fixed header plus an attribute list.
#[derive(Debug)]
pub struct MethodInfo {
    pub access_flags: u16,
    pub name_index: u16,
    pub descriptor_index: u16,
    pub attributes: Vec<Attribute>,
}

/// Mathematical model of a member (field or method): both share one
/// shape.
pub struct SpecMember {
    pub access_flags: u16,
    pub name_index: u16,
    pub descriptor_index: u16,
    pub attributes: Seq<SpecAttribute>,
}

impl View for FieldInfo {
    type V = SpecMember;

    open spec fn view(&self) -> SpecMember {
        SpecMember {
            access_flags: self.access_flags,
            name_index: self.name_index,
            descriptor_index: self.descriptor_index,
            attributes: spec_attributes_view(self.attributes@),
        }
    }
}

impl View for MethodInfo {
    type V = SpecMember;

    open spec fn view(&self) -> SpecMember {
        SpecMember {
            access_flags: self.access_flags,
            name_index: self.name_index,
            descriptor_index: self.descriptor_index,
            attributes: spec_attributes_view(self.attributes@),
        }
    }
}

/// The model of a sequence of fields.
pub open spec fn spec_fields_view(s: Seq<FieldInfo>) -> Seq<SpecMember> {
    Seq::new(s.len(), |i: int| s[i]@)
}

/// The model of a sequence of methods.
pub open spec fn spec_methods_view(s: Seq<MethodInfo>) -> Seq<SpecMember> {
    Seq::new(s.len(), |i: int| s[i]@)
}

/// A fully decoded class file.
#[derive(Debug)]
pub struct ClassFile {
    pub version: Version,
    pub constant_pool: ConstantTable,
    pub access_flags: u16,
    pub this_class: u16,
    pub super_class: u16,
    pub interfaces: Vec<u16>,
    pub fields: Vec<FieldInfo>,
    pub methods: Vec<MethodInfo>,
    pub attributes: Vec<Attribute>,
}

/// Mathematical model of a class file.
pub struct SpecClassFile {
    pub version: Version,
    pub constant_pool: Seq<Option<SpecConstantPoolType>>,
    pub access_flags: u16,
    pub this_class: u16,
    pub super_class: u16,
    pub interfaces: Seq<u16>,
    pub fields: Seq<SpecMember>,
    pub methods: Seq<SpecMember>,
    pub attributes: Seq<SpecAttribute>,
}

impl View for ClassFile {
    type V = SpecClassFile;

    open spec fn view(&self) -> SpecClassFile {
        SpecClassFile {
            version: self.version,
            constant_pool: self.constant_pool@,
            access_flags: self.access_flags,
            this_class: self.this_class,
            super_class: self.super_class,
            interfaces: self.interfaces@,
            fields: spec_fields_view(self.fields@),
            methods: spec_methods_view(self.methods@),
            attributes: spec_attributes_view(self.attributes@),
        }
    }
}

/// Parsing the version: minor, then major.
pub open spec fn spec_parse_version(data: Seq<u8>, pos: int) -> Result<
    (Version, int),
    SpecDecodeError,
> {
    match spec_read_u16(data, pos) {
        Err(e) => Err(e),
        Ok((minor, p)) => match spec_read_u16(data, p) {
            Err(e) => Err(e),
            Ok((major, p2)) => Ok((Version { minor, major }, p2)),
        },
    }
}

/// Decode the version.
pub fn version(cur: &mut Cursor) -> (r: Result<Version, DecodeError>)
    requires
        old(cur).wf(),
    ensures
        final(cur).data@ == old(cur).data@,
        final(cur).wf(),
        old(cur).pos <= final(cur).pos,
        match r {
            Ok(v) => {
                &&& spec_parse_version(old(cur).data@, old(cur).pos as int) matches Ok(s)
                &&& s == (v, final(cur).pos as int)
            },
            Err(e) => {
                &&& spec_parse_version(old(cur).data@, old(cur).pos as int) matches Err(se)
                &&& se == e@
            },
        },
{
    let minor = cur.read_u16()?;
    let major = cur.read_u16()?;
    Ok(Version { minor, major })
}

/// Parsing the interface list: a count, then that many table indices.
pub open spec fn spec_parse_interfaces(data: Seq<u8>, pos: int) -> Result<
    (Seq<u16>, int),
    SpecDecodeError,
> {
    match spec_read_u16(data, pos) {
        Err(e) => Err(e),
        Ok((count, p)) => if count * 2 > data.len() - p {
            Err(
                SpecDecodeError {
                    kind: DecodeErrorKind::CollectionLengthExceedsRemainingInput,
                    offset: p,
                },
            )
        } else {
            crate::attributes::spec_parse_u16_list(data, p, Seq::empty(), count as int)
        },
    }
}

/// Decode the interface list.
pub fn interfaces(cur: &mut Cursor) -> (r: Result<Vec<u16>, DecodeError>)
    requires
        old(cur).wf(),
    ensures
        final(cur).data@ == old(cur).data@,
        final(cur).wf(),
        old(cur).pos <= final(cur).pos,
        match r {
            Ok(v) => {
                &&& spec_parse_interfaces(old(cur).data@, old(cur).pos as int) matches Ok(s)
                &&& s == (v@, final(cur).pos as int)
            },
            Err(e) => {
                &&& spec_parse_interfaces(old(cur).data@, old(cur).pos as int) matches Err(se)
                &&& se == e@
            },
        },
{
    let count = cur.read_u16()?;
    if (count as usize) * 2 > cur.remaining() {
        return Err(
            DecodeError {
                kind: DecodeErrorKind::CollectionLengthExceedsRemainingInput,
                offset: cur.pos,
            },
        );
    }
    crate::attributes::u16_list(cur, count)
}

/// Parsing one member (field or method): three 16-bit fields, then its
/// attribute list.
pub open spec fn spec_parse_member(
    data: Seq<u8>,
    pos: int,
    table: Seq<Option<SpecConstantPoolType>>,
    depth: int,
) -> Result<(SpecMember, int), SpecDecodeError> {
    match spec_read_u16(data, pos) {
        Err(e) => Err(e),
        Ok((access_flags, p)) => match spec_read_u16(data, p) {
            Err(e) => Err(e),
            Ok((name_index, p2)) => match spec_read_u16(data, p2) {
                Err(e) => Err(e),
                Ok((descriptor_index, p3)) => match spec_parse_attributes(data, p3, table, depth) {
                    Err(e) => Err(e),
                    Ok((attributes, p4)) => Ok(
                        (SpecMember { access_flags, name_index, descriptor_index, attributes }, p4),
                    ),
                },
            },
        },
    }
}

/// Parsing `n` members in a row, accumulating onto `acc`.
pub open spec fn spec_parse_member_list(
    data: Seq<u8>,
    pos: int,
    table: Seq<Option<SpecConstantPoolType>>,
    acc: Seq<SpecMember>,
    n: int,
    depth: int,
) -> Result<(Seq<SpecMember>, int), SpecDecodeError>
    decreases n - acc.len(),
{
    if acc.len() >= n {
        Ok((acc, pos))
    } else {
        match spec_parse_member(data, pos, table, depth) {
            Err(e) => Err(e),
            Ok((m, p)) => spec_parse_member_list(data, p, table, acc.push(m), n, depth),
        }
    }
}

/// Parsing a member list with its leading count.
pub open spec fn spec_parse_members(
    data: Seq<u8>,
    pos: int,
    table: Seq<Option<SpecConstantPoolType>>,
    depth: int,
) -> Result<(Seq<SpecMember>, int), SpecDecodeError> {
    match spec_read_u16(data, pos) {
        Err(e) => Err(e),
        Ok((count, p)) => if count * 8 > data.len() - p {
            Err(
                SpecDecodeError {
                    kind: DecodeErrorKind::CollectionLengthExceedsRemainingInput,
                    offset: p,
                },
            )
        } else {
            spec_parse_member_list(data, p, table, Seq::empty(), count as int, depth)
        },
    }
}

/// Decode one field.
pub fn field_info(cur: &mut Cursor, constant_pool: &ConstantTable, depth: u32) -> (r: Result<
    FieldInfo,
    DecodeError,
>)
    requires
        old(cur).wf(),
    ensures
        final(cur).data@ == old(cur).data@,
        final(cur).wf(),
        old(cur).pos <= final(cur).pos,
        match r {
            Ok(f) => {
                &&& spec_parse_member(
                    old(cur).data@,
                    old(cur).pos as int,
                    constant_pool@,
                    depth as int,
                ) matches Ok(s)
                &&& s == (f@, final(cur).pos as int)
            },
            Err(e) => {
                &&& spec_parse_member(
                    old(cur).data@,
                    old(cur).pos as int,
                    constant_pool@,
                    depth as int,
                ) matches Err(se)
                &&& se == e@
            },
        },
{
    let access_flags = cur.read_u16()?;
    let name_index = cur.read_u16()?;
    let descriptor_index = cur.read_u16()?;
    let attributes = attributes(cur, constant_pool, depth)?;
    Ok(FieldInfo { access_flags, name_index, descriptor_index, attributes })
}

/// Decode one method.
pub fn method_info(cur: &mut Cursor, constant_pool: &ConstantTable, depth: u32) -> (r: Result<
    MethodInfo,
    DecodeError,
>)
    requires
        old(cur).wf(),
    ensures
        final(cur).data@ == old(cur).data@,
        final(cur).wf(),
        old(cur).pos <= final(cur).pos,
        match r {
            Ok(m) => {
                &&& spec_parse_member(
                    old(cur).data@,
                    old(cur).pos as int,
                    constant_pool@,
                    depth as int,
                ) matches Ok(s)
                &&& s == (m@, final(cur).pos as int)
            },
            Err(e) => {
                &&& spec_parse_member(
                    old(cur).data@,
                    old(cur).pos as int,
                    constant_pool@,
                    depth as int,
                ) matches Err(se)
                &&& se == e@
            },
        },
{
    let access_flags = cur.read_u16()?;
    let name_index = cur.read_u16()?;
    let descriptor_index = cur.read_u16()?;
    let attributes = attributes(cur, constant_pool, depth)?;
    Ok(MethodInfo { access_flags, name_index, descriptor_index, attributes })
}

proof fn lemma_fields_view_push(s: Seq<FieldInfo>, x: FieldInfo)
    ensures
        spec_fields_view(s.push(x)) == spec_fields_view(s).push(x@),
{
    assert(spec_fields_view(s.push(x)) =~= spec_fields_view(s).push(x@));
}

proof fn lemma_methods_view_push(s: Seq<MethodInfo>, x: MethodInfo)
    ensures
        spec_methods_view(s.push(x)) == spec_methods_view(s).push(x@),
{
    assert(spec_methods_view(s.push(x)) =~= spec_methods_view(s).push(x@));
}

/// Decode the field list with its leading count.
#[verifier::loop_isolation(false)]
pub fn fields(cur: &mut Cursor, constant_pool: &ConstantTable, depth: u32) -> (r: Result<
    Vec<FieldInfo>,
    DecodeError,
>)
    requires
        old(cur).wf(),
    ensures
        final(cur).data@ == old(cur).data@,
        final(cur).wf(),
        old(cur).pos <= final(cur).pos,
        match r {
            Ok(v) => {
                &&& spec_parse_members(
                    old(cur).data@,
                    old(cur).pos as int,
                    constant_pool@,
                    depth as int,
                ) matches Ok(s)
                &&& s == (spec_fields_view(v@), final(cur).pos as int)
            },
            Err(e) => {
                &&& spec_parse_members(
                    old(cur).data@,
                    old(cur).pos as int,
                    constant_pool@,
                    depth as int,
                ) matches Err(se)
                &&& se == e@
            },
        },
{
    let ghost data = old(cur).data@;
    let count = cur.read_u16()?;
    if (count as usize) * 8 > cur.remaining() {
        return Err(
            DecodeError {
                kind: DecodeErrorKind::CollectionLengthExceedsRemainingInput,
                offset: cur.pos,
            },
        );
    }
    let ghost p_start = cur.pos as int;
    let mut out: Vec<FieldInfo> = Vec::new();
    proof {
        assert(spec_fields_view(out@) =~= Seq::<SpecMember>::empty());
    }
    while out.len() < count as usize
        invariant
            cur.wf(),
            cur.data@ == data,
            old(cur).pos <= cur.pos,
            out@.len() <= count as usize,
            spec_parse_member_list(
                data,
                cur.pos as int,
                constant_pool@,
                spec_fields_view(out@),
                count as int,
                depth as int,
            ) == spec_parse_member_list(
                data,
                p_start,
                constant_pool@,
                Seq::empty(),
                count as int,
                depth as int,
            ),
        decreases count as int - out@.len(),
    {
        let f = field_info(cur, constant_pool, depth)?;
        proof {
            lemma_fields_view_push(out@, f);
        }
        out.push(f);
    }
    Ok(out)
}

/// Decode the method list with its leading count.
#[verifier::loop_isolation(false)]
pub fn methods(cur: &mut Cursor, constant_pool: &ConstantTable, depth: u32) -> (r: Result<
    Vec<MethodInfo>,
    DecodeError,
>)
    requires
        old(cur).wf(),
    ensures
        final(cur).data@ == old(cur).data@,
        final(cur).wf(),
        old(cur).pos <= final(cur).pos,
        match r {
            Ok(v) => {
                &&& spec_parse_members(
                    old(cur).data@,
                    old(cur).pos as int,
                    constant_pool@,
                    depth as int,
                ) matches Ok(s)
                &&& s == (spec_methods_view(v@), final(cur).pos as int)
            },
            Err(e) => {
                &&& spec_parse_members(
                    old(cur).data@,
                    old(cur).pos as int,
                    constant_pool@,
                    depth as int,
                ) matches Err(se)
                &&& se == e@
            },
        },
{
    let ghost data = old(cur).data@;
    let count = cur.read_u16()?;
    if (count as usize) * 8 > cur.remaining() {
        return Err(
            DecodeError {
                kind: DecodeErrorKind::CollectionLengthExceedsRemainingInput,
                offset: cur.pos,
            },
        );
    }
    let ghost p_start = cur.pos as int;
    let mut out: Vec<MethodInfo> = Vec::new();
    proof {
        assert(spec_methods_view(out@) =~= Seq::<SpecMember>::empty());
    }
    while out.len() < count as usize
        invariant
            cur.wf(),
            cur.data@ == data,
            old(cur).pos <= cur.pos,
            out@.len() <= count as usize,
            spec_parse_member_list(
                data,
                cur.pos as int,
                constant_pool@,
                spec_methods_view(out@),
                count as int,
                depth as int,
            ) == spec_parse_member_list(
                data,
                p_start,
                constant_pool@,
                Seq::empty(),
                count as int,
                depth as int,
            ),
        decreases count as int - out@.len(),
    {
        let m = method_info(cur, constant_pool, depth)?;
        proof {
            lemma_methods_view_push(out@, m);
        }
        out.push(m);
    }
    Ok(out)
}

/// Parsing the tail of a class file, after its super-class reference:
/// interfaces, fields, methods, and top-level attributes.
pub open spec fn spec_parse_class_tail(
    data: Seq<u8>,
    pos: int,
    table: Seq<Option<SpecConstantPoolType>>,
) -> Result<((Seq<u16>, Seq<SpecMember>, Seq<SpecMember>, Seq<SpecAttribute>), int), SpecDecodeError> {
    match spec_parse_interfaces(data, pos) {
        Err(e) => Err(e),
        Ok((interfaces, p7)) => match spec_parse_members(data, p7, table, MAX_NESTING_DEPTH as int) {
            Err(e) => Err(e),
            Ok((fields, p8)) => match spec_parse_members(
                data,
                p8,
                table,
                MAX_NESTING_DEPTH as int,
            ) {
                Err(e) => Err(e),
                Ok((methods, p9)) => match spec_parse_attributes(
                    data,
                    p9,
                    table,
                    MAX_NESTING_DEPTH as int,
                ) {
                    Err(e) => Err(e),
                    Ok((attributes, p10)) => Ok(((interfaces, fields, methods, attributes), p10)),
                },
            },
        },
    }
}

/// Parsing a whole class file from the start of the buffer: magic,
/// version, constant table, flags, self and super references, interfaces,
/// fields, methods, and top-level attributes. A leading value other than
/// the fixed magic fails with [`DecodeErrorKind::InvalidMagic`] at offset
/// 0. Bytes after the last attribute are left unread.
pub open spec fn spec_parse_class_file(data: Seq<u8>) -> Result<
    (SpecClassFile, int),
    SpecDecodeError,
> {
    match spec_read_u32(data, 0) {
        Err(e) => Err(e),
        Ok((magic, p)) => if magic != CLASS_FILE_MAGIC {
            Err(SpecDecodeError { kind: DecodeErrorKind::InvalidMagic, offset: 0 })
        } else {
            match spec_parse_version(data, p) {
                Err(e) => Err(e),
                Ok((version, p2)) => match spec_parse_constant_pool(data, p2) {
                    Err(e) => Err(e),
                    Ok((constant_pool, p3)) => match spec_read_u16(data, p3) {
                        Err(e) => Err(e),
                        Ok((access_flags, p4)) => match spec_read_u16(data, p4) {
                            Err(e) => Err(e),
                            Ok((this_class, p5)) => match spec_read_u16(data, p5) {
                                Err(e) => Err(e),
                                Ok((super_class, p6)) => match spec_parse_class_tail(
                                    data,
                                    p6,
                                    constant_pool,
                                ) {
                                    Err(e) => Err(e),
                                    Ok(((interfaces, fields, methods, attributes), p10)) => Ok(
                                        (
                                            SpecClassFile {
                                                version,
                                                constant_pool,
                                                access_flags,
                                                this_class,
                                                super_class,
                                                interfaces,
                                                fields,
                                                methods,
                                                attributes,
                                            },
                                            p10,
                                        ),
                                    ),
                                },
                            },
                        },
                    },
                },
            }
        },
    }
}

/// Decode a whole class file from a byte buffer. This is the single entry
/// point of the decoder: a pure function from the buffer to a decoded
/// tree or a terminal error.
pub fn class_file(input: &[u8]) -> (r: Result<ClassFile, DecodeError>)
    ensures
        match r {
            Ok(cf) => {
                &&& spec_parse_class_file(input@) matches Ok(s)
                &&& s.0 == cf@
            },
            Err(e) => {
                &&& spec_parse_class_file(input@) matches Err(se)
                &&& se == e@
            },
        },
{
    let mut cur = Cursor::new(input);
    let magic = cur.read_u32()?;
    if magic != CLASS_FILE_MAGIC {
        return Err(DecodeError { kind: DecodeErrorKind::InvalidMagic, offset: 0 });
    }
    let version = version(&mut cur)?;
    let constant_pool = constant_pool(&mut cur)?;
    let access_flags = cur.read_u16()?;
    let this_class = cur.read_u16()?;
    let super_class = cur.read_u16()?;
    let interfaces = interfaces(&mut cur)?;
    let fields = fields(&mut cur, &constant_pool, MAX_NESTING_DEPTH)?;
    let methods = methods(&mut cur, &constant_pool, MAX_NESTING_DEPTH)?;
    let attributes = attributes(&mut cur, &constant_pool, MAX_NESTING_DEPTH)?;
    Ok(
        ClassFile {
            version,
            constant_pool,
            access_flags,
            this_class,
            super_class,
            interfaces,
            fields,
            methods,
            attributes,
        },
    )
}

/// Decoding is deterministic: the parse of a class file is a function of
/// the input bytes alone, so identical input bytes always lead to an
/// identical decoded tree (or to the identical error). Together with the
/// contract of [`class_file`], which pins its result to this function,
/// two decodes of equal buffers can never disagree.
pub proof fn lemma_decode_deterministic(b1: Seq<u8>, b2: Seq<u8>)
    requires
        b1 == b2,
    ensures
        spec_parse_class_file(b1) == spec_parse_class_file(b2),
{
}

/// Parsing the version from a prefix of the buffer.
proof fn lemma_prefix_version(data: Seq<u8>, k: int, pos: int)
    requires
        0 <= pos <= k <= data.len(),
    ensures
        spec_parse_version(data, pos) matches Ok(s) ==> s.1 == pos + 4 <= data.len(),
        spec_parse_version(data, pos) matches Ok(s) ==> (if s.1 <= k {
            spec_parse_version(data.take(k), pos) == spec_parse_version(data, pos)
        } else {
            spec_parse_version(data.take(k), pos) matches Err(e)
                && crate::error::spec_is_exhaustion_error(e)
        }),
{
    crate::cursor::lemma_prefix_read_u16(data, k, pos);
    match spec_read_u16(data, pos) {
        Err(_) => {},
        Ok((_, p)) => {
            if p <= k {
                crate::cursor::lemma_prefix_read_u16(data, k, p);
            } else {
                crate::cursor::lemma_prefix_read_u16(data, data.len() as int, p);
            }
        },
    }
}

/// Parsing the interface list from a prefix of the buffer.
proof fn lemma_prefix_interfaces(data: Seq<u8>, k: int, pos: int)
    requires
        0 <= pos <= k <= data.len(),
    ensures
        spec_parse_interfaces(data, pos) matches Ok(s) ==> pos + 2 <= s.1 <= data.len(),
        spec_parse_interfaces(data, pos) matches Ok(s) ==> (if s.1 <= k {
            spec_parse_interfaces(data.take(k), pos) == spec_parse_interfaces(data, pos)
        } else {
            spec_parse_interfaces(data.take(k), pos) matches Err(e)
                && crate::error::spec_is_exhaustion_error(e)
        }),
{
    crate::cursor::lemma_prefix_read_u16(data, k, pos);
    match spec_read_u16(data, pos) {
        Err(_) => {},
        Ok((count, p)) => {
            if count * 2 > data.len() - p {
            } else {
                crate::attributes::lemma_prefix_u16_list(
                    data,
                    data.len() as int,
                    p,
                    Seq::empty(),
                    count as int,
                );
                if p <= k {
                    crate::attributes::lemma_prefix_u16_list(
                        data,
                        k,
                        p,
                        Seq::empty(),
                        count as int,
                    );
                }
            }
        },
    }
}

/// Parsing one member from a prefix of the buffer. A member consumes at
/// least 8 bytes.
proof fn lemma_prefix_member(
    data: Seq<u8>,
    k: int,
    pos: int,
    table: Seq<Option<SpecConstantPoolType>>,
    depth: int,
)
    requires
        0 <= pos <= k <= data.len(),
    ensures
        spec_parse_member(data, pos, table, depth) matches Ok(s) ==> pos + 8 <= s.1 <= data.len(),
        spec_parse_member(data, pos, table, depth) matches Ok(s) ==> (if s.1 <= k {
            spec_parse_member(data.take(k), pos, table, depth) == spec_parse_member(
                data,
                pos,
                table,
                depth,
            )
        } else {
            spec_parse_member(data.take(k), pos, table, depth) matches Err(e)
                && crate::error::spec_is_exhaustion_error(e)
        }),
{
    crate::cursor::lemma_prefix_read_u16(data, k, pos);
    match spec_read_u16(data, pos) {
        Err(_) => {},
        Ok((_, p)) => {
            if p <= k {
                crate::cursor::lemma_prefix_read_u16(data, k, p);
            } else {
                crate::cursor::lemma_prefix_read_u16(data, data.len() as int, p);
            }
            match spec_read_u16(data, p) {
                Err(_) => {},
                Ok((_, p2)) => {
                    if p2 <= k {
                        crate::cursor::lemma_prefix_read_u16(data, k, p2);
                    } else {
                        crate::cursor::lemma_prefix_read_u16(data, data.len() as int, p2);
                    }
                    match spec_read_u16(data, p2) {
                        Err(_) => {},
                        Ok((_, p3)) => {
                            if p3 <= k {
                                crate::attributes::lemma_prefix_attributes(
                                    data,
                                    k,
                                    p3,
                                    table,
                                    depth,
                                );
                            } else {
                                crate::attributes::lemma_prefix_attributes(
                                    data,
                                    data.len() as int,
                                    p3,
                                    table,
                                    depth,
                                );
                            }
                        },
                    }
                },
            }
        },
    }
}

/// Parsing a member list from a prefix of the buffer. Each member still
/// to read accounts for at least 8 consumed bytes.
proof fn lemma_prefix_member_list(
    data: Seq<u8>,
    k: int,
    pos: int,
    table: Seq<Option<SpecConstantPoolType>>,
    acc: Seq<SpecMember>,
    n: int,
    depth: int,
)
    requires
        0 <= pos <= k <= data.len(),
    ensures
        spec_parse_member_list(data, pos, table, acc, n, depth) matches Ok(s) ==> s.1 <= data.len()
            && s.1 >= pos + (if acc.len() < n {
            8 * (n - acc.len())
        } else {
            0
        }),
        spec_parse_member_list(data, pos, table, acc, n, depth) matches Ok(s) ==> (if s.1 <= k {
            spec_parse_member_list(data.take(k), pos, table, acc, n, depth)
                == spec_parse_member_list(data, pos, table, acc, n, depth)
        } else {
            spec_parse_member_list(data.take(k), pos, table, acc, n, depth) matches Err(e)
                && crate::error::spec_is_exhaustion_error(e)
        }),
    decreases n - acc.len(),
{
    if acc.len() >= n {
    } else {
        lemma_prefix_member(data, k, pos, table, depth);
        match spec_parse_member(data, pos, table, depth) {
            Err(_) => {},
            Ok((m, p)) => {
                if p <= k {
                    lemma_prefix_member_list(data, k, p, table, acc.push(m), n, depth);
                } else {
                    lemma_prefix_member_list(
                        data,
                        data.len() as int,
                        p,
                        table,
                        acc.push(m),
                        n,
                        depth,
                    );
                }
            },
        }
    }
}

/// Parsing a counted member list from a prefix of the buffer.
proof fn lemma_prefix_members(
    data: Seq<u8>,
    k: int,
    pos: int,
    table: Seq<Option<SpecConstantPoolType>>,
    depth: int,
)
    requires
        0 <= pos <= k <= data.len(),
    ensures
        spec_parse_members(data, pos, table, depth) matches Ok(s) ==> pos + 2 <= s.1 <= data.len(),
        spec_parse_members(data, pos, table, depth) matches Ok(s) ==> (if s.1 <= k {
            spec_parse_members(data.take(k), pos, table, depth) == spec_parse_members(
                data,
                pos,
                table,
                depth,
            )
        } else {
            spec_parse_members(data.take(k), pos, table, depth) matches Err(e)
                && crate::error::spec_is_exhaustion_error(e)
        }),
{
    crate::cursor::lemma_prefix_read_u16(data, k, pos);
    match spec_read_u16(data, pos) {
        Err(_) => {},
        Ok((count, p)) => {
            if count * 8 > data.len() - p {
            } else {
                lemma_prefix_member_list(
                    data,
                    data.len() as int,
                    p,
                    table,
                    Seq::empty(),
                    count as int,
                    depth,
                );
                if p <= k {
                    lemma_prefix_member_list(data, k, p, table, Seq::empty(), count as int, depth);
                }
            }
        },
    }
}

/// Parsing a whole class file from a prefix of the buffer: the same tree
/// when the parse ends inside the prefix, an input-exhaustion error when
/// it does not.
#[verifier::rlimit(100)]
pub proof fn lemma_prefix_class_file(data: Seq<u8>, k: int)
    requires
        0 <= k <= data.len(),
    ensures
        spec_parse_class_file(data) matches Ok(s) ==> s.1 <= data.len(),
        spec_parse_class_file(data) matches Ok(s) ==> (if s.1 <= k {
            spec_parse_class_file(data.take(k)) == spec_parse_class_file(data)
        } else {
            spec_parse_class_file(data.take(k)) matches Err(e)
                && crate::error::spec_is_exhaustion_error(e)
        }),
{
    crate::cursor::lemma_prefix_read_u32(data, k, 0);
    match spec_read_u32(data, 0) {
        Err(_) => {},
        Ok((magic, p)) => {
            if magic != CLASS_FILE_MAGIC {
            } else {
                if p <= k {
                    lemma_prefix_version(data, k, p);
                } else {
                    lemma_prefix_version(data, data.len() as int, p);
                }
                match spec_parse_version(data, p) {
                    Err(_) => {},
                    Ok((_, p2)) => {
                        if p2 <= k {
                            crate::constant_pool::lemma_prefix_constant_pool(data, k, p2);
                        } else {
                            crate::constant_pool::lemma_prefix_constant_pool(
                                data,
                                data.len() as int,
                                p2,
                            );
                        }
                        match spec_parse_constant_pool(data, p2) {
                            Err(_) => {},
                            Ok((table, p3)) => {
                                if p3 <= k {
                                    crate::cursor::lemma_prefix_read_u16(data, k, p3);
                                } else {
                                    crate::cursor::lemma_prefix_read_u16(data, data.len() as int, p3);
                                }
                                match spec_read_u16(data, p3) {
                                    Err(_) => {},
                                    Ok((_, p4)) => {
                                        if p4 <= k {
                                            crate::cursor::lemma_prefix_read_u16(data, k, p4);
                                        } else {
                                            crate::cursor::lemma_prefix_read_u16(
                                                data,
                                                data.len() as int,
                                                p4,
                                            );
                                        }
                                        match spec_read_u16(data, p4) {
                                            Err(_) => {},
                                            Ok((_, p5)) => {
                                                if p5 <= k {
                                                    crate::cursor::lemma_prefix_read_u16(data, k, p5);
                                                } else {
                                                    crate::cursor::lemma_prefix_read_u16(
                                                        data,
                                                        data.len() as int,
                                                        p5,
                                                    );
                                                }
                                                match spec_read_u16(data, p5) {
                                                    Err(_) => {},
                                                    Ok((_, p6)) => {
                                                        if p6 <= k {
                                                            lemma_prefix_class_file_tail(
                                                                data,
                                                                k,
                                                                p6,
                                                                table,
                                                            );
                                                        } else {
                                                            lemma_prefix_class_file_tail(
                                                                data,
                                                                data.len() as int,
                                                                p6,
                                                                table,
                                                            );
                                                        }
                                                    },
                                                }
                                            },
                                        }
                                    },
                                }
                            },
                        }
                    },
                }
            }
        },
    }
}

/// Parsing the class file tail from a prefix of the buffer.
proof fn lemma_prefix_class_file_tail(
    data: Seq<u8>,
    k: int,
    pos: int,
    table: Seq<Option<SpecConstantPoolType>>,
)
    requires
        0 <= pos <= k <= data.len(),
    ensures
        spec_parse_class_tail(data, pos, table) matches Ok(s) ==> pos + 2 <= s.1 <= data.len(),
        spec_parse_class_tail(data, pos, table) matches Ok(s) ==> (if s.1 <= k {
            spec_parse_class_tail(data.take(k), pos, table) == spec_parse_class_tail(
                data,
                pos,
                table,
            )
        } else {
            spec_parse_class_tail(data.take(k), pos, table) matches Err(e)
                && crate::error::spec_is_exhaustion_error(e)
        }),
{
    lemma_prefix_interfaces(data, k, pos);
    match spec_parse_interfaces(data, pos) {
        Err(_) => {},
        Ok((_, p7)) => {
            if p7 <= k {
                lemma_prefix_members(data, k, p7, table, MAX_NESTING_DEPTH as int);
            } else {
                lemma_prefix_members(data, data.len() as int, p7, table, MAX_NESTING_DEPTH as int);
            }
            match spec_parse_members(data, p7, table, MAX_NESTING_DEPTH as int) {
                Err(_) => {},
                Ok((_, p8)) => {
                    if p8 <= k {
                        lemma_prefix_members(data, k, p8, table, MAX_NESTING_DEPTH as int);
                    } else {
                        lemma_prefix_members(
                            data,
                            data.len() as int,
                            p8,
                            table,
                            MAX_NESTING_DEPTH as int,
                        );
                    }
                    match spec_parse_members(data, p8, table, MAX_NESTING_DEPTH as int) {
                        Err(_) => {},
                        Ok((_, p9)) => {
                            if p9 <= k {
                                crate::attributes::lemma_prefix_attributes(
                                    data,
                                    k,
                                    p9,
                                    table,
                                    MAX_NESTING_DEPTH as int,
                                );
                            } else {
                                crate::attributes::lemma_prefix_attributes(
                                    data,
                                    data.len() as int,
                                    p9,
                                    table,
                                    MAX_NESTING_DEPTH as int,
                                );
                            }
                        },
                    }
                },
            }
        },
    }
}

/// For any input that decodes successfully and is consumed to its last
/// byte, removing that byte makes the decode fail for want of input: it
/// never succeeds, and the error reports exhaustion, either a read past
/// the end or a declared count that no longer fits.
pub proof fn lemma_truncation_fails(data: Seq<u8>)
    requires
        data.len() > 0,
        spec_parse_class_file(data) matches Ok(s) && s.1 == data.len(),
    ensures
        spec_parse_class_file(data.take(data.len() - 1)) matches Err(e)
            && crate::error::spec_is_exhaustion_error(e),
{
    lemma_prefix_class_file(data, data.len() - 1);
}

} // verus!
