//! Attributes: named, length-prefixed metadata blocks.
//!
//! An attribute header names a Utf8 constant and declares a body length;
//! a fixed table of well-known names selects the body grammar, and any
//! other name degrades to an opaque blob of the declared length. After a
//! chosen grammar runs, the bytes it consumed must equal the declared
//! length exactly. The `Code` grammar nests a further attribute list,
//! guarded by the same depth budget as the annotation tree.

use vstd::prelude::*;

use crate::annotations::{spec_parse_annotation_list, spec_parse_element_value,
    spec_annotations_view, spec_element_value_view, annotation_list, element_value, Annotation,
    ElementValue, SpecAnnotation, SpecElementValue};
use crate::constant_pool::{spec_get_utf8, ConstantTable, get_utf8, SpecConstantPoolType};
use crate::cursor::{spec_read_u8, spec_read_u16, spec_read_u32, spec_read_bytes, Cursor};
use crate::error::{DecodeError, DecodeErrorKind, SpecDecodeError};
use crate::stack_map::{spec_parse_stack_map_table, spec_frames_view, stack_map_table,
    StackMapFrame, SpecStackMapFrame};

verus! {

/// The nesting budget for the two recursive decoders: attributes nested
/// inside `Code` bodies, and the annotation and element value tree.
pub const MAX_NESTING_DEPTH: u32 = 64;

/// One row of a `Code` body's exception table.
#[derive(Debug, Clone, Copy, PartialEq, Eq, Structural)]
pub struct ExceptionHandler {
    pub start_pc: u16,
    pub end_pc: u16,
    pub handler_pc: u16,
    pub catch_type: u16,
}

/// One row of an `InnerClasses` body.
#[derive(Debug, Clone, Copy, PartialEq, Eq, Structural)]
pub struct InnerClass {
    pub inner_class_info: u16,
    pub outer_class_info: u16,
    pub inner_name_index: u16,
    pub inner_class_access_flags: u16,
}

/// One row of a `LineNumberTable` body.
#[derive(Debug, Clone, Copy, PartialEq, Eq, Structural)]
pub struct LineNumber {
    pub start_pc: u16,
    pub line_number: u16,
}

/// One row of a `LocalVariableTable` or `LocalVariableTypeTable` body.
#[derive(Debug, Clone, Copy, PartialEq, Eq, Structural)]
pub struct LocalVariable {
    pub start_pc: u16,
    pub length: u16,
    pub name_index: u16,
    pub descriptor_index: u16,
    pub index: u16,
}

/// How a dynamic call site is linked: a method handle and its static
/// argument indices.
#[derive(Debug, Clone)]
pub struct BootstrapMethod {
    pub bootstrap_method_ref: u16,
    pub bootstrap_arguments: Vec<u16>,
}

/// Mathematical model of a bootstrap method.
pub struct SpecBootstrapMethod {
    pub bootstrap_method_ref: u16,
    pub bootstrap_arguments: Seq<u16>,
}

impl View for BootstrapMethod {
    type V = SpecBootstrapMethod;

    open spec fn view(&self) -> SpecBootstrapMethod {
        SpecBootstrapMethod {
            bootstrap_method_ref: self.bootstrap_method_ref,
            bootstrap_arguments: self.bootstrap_arguments@,
        }
    }
}

/// The model of a sequence of bootstrap methods.
pub open spec fn spec_bootstrap_methods_view(s: Seq<BootstrapMethod>) -> Seq<SpecBootstrapMethod> {
    Seq::new(s.len(), |i: int| s[i]@)
}

/// The model of per-parameter annotation lists.
pub open spec fn spec_param_annotations_view(s: Seq<Vec<Annotation>>) -> Seq<Seq<SpecAnnotation>> {
    Seq::new(s.len(), |i: int| spec_annotations_view(s[i]@))
}

/// The well-known attribute names, plus `Unknown` for any other name.
#[derive(Debug, Clone, Copy, PartialEq, Eq, Structural)]
pub enum AttributeTag {
    ConstantValue,
    Code,
    StackMapTable,
    Exceptions,
    InnerClasses,
    EnclosingMethod,
    Synthetic,
    Signature,
    SourceFile,
    SourceDebugExtension,
    LineNumberTable,
    LocalVariableTable,
    LocalVariableTypeTable,
    Deprecated,
    RuntimeVisibleAnnotations,
    RuntimeInvisibleAnnotations,
    RuntimeVisibleParameterAnnotations,
    RuntimeInvisibleParameterAnnotations,
    AnnotationDefault,
    BootstrapMethods,
    Unknown,
}

impl AttributeTag {
    /// The byte content of each well-known attribute name; `Unknown` has
    /// no name of its own.
    pub open spec fn spec_name(self) -> Seq<u8> {
        match self {
            AttributeTag::ConstantValue => seq![
                67u8, 111u8, 110u8, 115u8, 116u8, 97u8, 110u8, 116u8, 86u8, 97u8, 108u8, 117u8,
                101u8,
            ],
            AttributeTag::Code => seq![67u8, 111u8, 100u8, 101u8],
            AttributeTag::StackMapTable => seq![
                83u8, 116u8, 97u8, 99u8, 107u8, 77u8, 97u8, 112u8, 84u8, 97u8, 98u8, 108u8, 101u8,
            ],
            AttributeTag::Exceptions => seq![
                69u8, 120u8, 99u8, 101u8, 112u8, 116u8, 105u8, 111u8, 110u8, 115u8,
            ],
            AttributeTag::InnerClasses => seq![
                73u8, 110u8, 110u8, 101u8, 114u8, 67u8, 108u8, 97u8, 115u8, 115u8, 101u8, 115u8,
            ],
            AttributeTag::EnclosingMethod => seq![
                69u8, 110u8, 99u8, 108u8, 111u8, 115u8, 105u8, 110u8, 103u8, 77u8, 101u8, 116u8,
                104u8, 111u8, 100u8,
            ],
            AttributeTag::Synthetic => seq![
                83u8, 121u8, 110u8, 116u8, 104u8, 101u8, 116u8, 105u8, 99u8,
            ],
            AttributeTag::Signature => seq![
                83u8, 105u8, 103u8, 110u8, 97u8, 116u8, 117u8, 114u8, 101u8,
            ],
            AttributeTag::SourceFile => seq![
                83u8, 111u8, 117u8, 114u8, 99u8, 101u8, 70u8, 105u8, 108u8, 101u8,
            ],
            AttributeTag::SourceDebugExtension => seq![
                83u8, 111u8, 117u8, 114u8, 99u8, 101u8, 68u8, 101u8, 98u8, 117u8, 103u8, 69u8,
                120u8, 116u8, 101u8, 110u8, 115u8, 105u8, 111u8, 110u8,
            ],
            AttributeTag::LineNumberTable => seq![
                76u8, 105u8, 110u8, 101u8, 78u8, 117u8, 109u8, 98u8, 101u8, 114u8, 84u8, 97u8,
                98u8, 108u8, 101u8,
            ],
            AttributeTag::LocalVariableTable => seq![
                76u8, 111u8, 99u8, 97u8, 108u8, 86u8, 97u8, 114u8, 105u8, 97u8, 98u8, 108u8, 101u8,
                84u8, 97u8, 98u8, 108u8, 101u8,
            ],
            AttributeTag::LocalVariableTypeTable => seq![
                76u8, 111u8, 99u8, 97u8, 108u8, 86u8, 97u8, 114u8, 105u8, 97u8, 98u8, 108u8, 101u8,
                84u8, 121u8, 112u8, 101u8, 84u8, 97u8, 98u8, 108u8, 101u8,
            ],
            AttributeTag::Deprecated => seq![
                68u8, 101u8, 112u8, 114u8, 101u8, 99u8, 97u8, 116u8, 101u8, 100u8,
            ],
            AttributeTag::RuntimeVisibleAnnotations => seq![
                82u8, 117u8, 110u8, 116u8, 105u8, 109u8, 101u8, 86u8, 105u8, 115u8, 105u8, 98u8,
                108u8, 101u8, 65u8, 110u8, 110u8, 111u8, 116u8, 97u8, 116u8, 105u8, 111u8, 110u8,
                115u8,
            ],
            AttributeTag::RuntimeInvisibleAnnotations => seq![
                82u8, 117u8, 110u8, 116u8, 105u8, 109u8, 101u8, 73u8, 110u8, 118u8, 105u8, 115u8,
                105u8, 98u8, 108u8, 101u8, 65u8, 110u8, 110u8, 111u8, 116u8, 97u8, 116u8, 105u8,
                111u8, 110u8, 115u8,
            ],
            AttributeTag::RuntimeVisibleParameterAnnotations => seq![
                82u8, 117u8, 110u8, 116u8, 105u8, 109u8, 101u8, 86u8, 105u8, 115u8, 105u8, 98u8,
                108u8, 101u8, 80u8, 97u8, 114u8, 97u8, 109u8, 101u8, 116u8, 101u8, 114u8, 65u8,
                110u8, 110u8, 111u8, 116u8, 97u8, 116u8, 105u8, 111u8, 110u8, 115u8,
            ],
            AttributeTag::RuntimeInvisibleParameterAnnotations => seq![
                82u8, 117u8, 110u8, 116u8, 105u8, 109u8, 101u8, 73u8, 110u8, 118u8, 105u8, 115u8,
                105u8, 98u8, 108u8, 101u8, 80u8, 97u8, 114u8, 97u8, 109u8, 101u8, 116u8, 101u8,
                114u8, 65u8, 110u8, 110u8, 111u8, 116u8, 97u8, 116u8, 105u8, 111u8, 110u8, 115u8,
            ],
            AttributeTag::AnnotationDefault => seq![
                65u8, 110u8, 110u8, 111u8, 116u8, 97u8, 116u8, 105u8, 111u8, 110u8, 68u8, 101u8,
                102u8, 97u8, 117u8, 108u8, 116u8,
            ],
            AttributeTag::BootstrapMethods => seq![
                66u8, 111u8, 111u8, 116u8, 115u8, 116u8, 114u8, 97u8, 112u8, 77u8, 101u8, 116u8,
                104u8, 111u8, 100u8, 115u8,
            ],
            AttributeTag::Unknown => Seq::empty(),
        }
    }

    /// The fixed mapping from a name's byte content to its tag, by exact
    /// byte match; any unlisted name is `Unknown`.
    pub open spec fn spec_from_name(s: Seq<u8>) -> AttributeTag {
        if s == AttributeTag::ConstantValue.spec_name() {
            AttributeTag::ConstantValue
        } else if s == AttributeTag::Code.spec_name() {
            AttributeTag::Code
        } else if s == AttributeTag::StackMapTable.spec_name() {
            AttributeTag::StackMapTable
        } else if s == AttributeTag::Exceptions.spec_name() {
            AttributeTag::Exceptions
        } else if s == AttributeTag::InnerClasses.spec_name() {
            AttributeTag::InnerClasses
        } else if s == AttributeTag::EnclosingMethod.spec_name() {
            AttributeTag::EnclosingMethod
        } else if s == AttributeTag::Synthetic.spec_name() {
            AttributeTag::Synthetic
        } else if s == AttributeTag::Signature.spec_name() {
            AttributeTag::Signature
        } else if s == AttributeTag::SourceFile.spec_name() {
            AttributeTag::SourceFile
        } else if s == AttributeTag::SourceDebugExtension.spec_name() {
            AttributeTag::SourceDebugExtension
        } else if s == AttributeTag::LineNumberTable.spec_name() {
            AttributeTag::LineNumberTable
        } else if s == AttributeTag::LocalVariableTable.spec_name() {
            AttributeTag::LocalVariableTable
        } else if s == AttributeTag::LocalVariableTypeTable.spec_name() {
            AttributeTag::LocalVariableTypeTable
        } else if s == AttributeTag::Deprecated.spec_name() {
            AttributeTag::Deprecated
        } else if s == AttributeTag::RuntimeVisibleAnnotations.spec_name() {
            AttributeTag::RuntimeVisibleAnnotations
        } else if s == AttributeTag::RuntimeInvisibleAnnotations.spec_name() {
            AttributeTag::RuntimeInvisibleAnnotations
        } else if s == AttributeTag::RuntimeVisibleParameterAnnotations.spec_name() {
            AttributeTag::RuntimeVisibleParameterAnnotations
        } else if s == AttributeTag::RuntimeInvisibleParameterAnnotations.spec_name() {
            AttributeTag::RuntimeInvisibleParameterAnnotations
        } else if s == AttributeTag::AnnotationDefault.spec_name() {
            AttributeTag::AnnotationDefault
        } else if s == AttributeTag::BootstrapMethods.spec_name() {
            AttributeTag::BootstrapMethods
        } else {
            AttributeTag::Unknown
        }
    }

    /// The byte content of a well-known attribute name.
    pub fn name_bytes(self) -> (r: Vec<u8>)
        ensures
            r@ == self.spec_name(),
    {
        let r: Vec<u8> = match self {
            AttributeTag::ConstantValue => vec![
                67u8, 111u8, 110u8, 115u8, 116u8, 97u8, 110u8, 116u8, 86u8, 97u8, 108u8, 117u8,
                101u8,
            ],
            AttributeTag::Code => vec![67u8, 111u8, 100u8, 101u8],
            AttributeTag::StackMapTable => vec![
                83u8, 116u8, 97u8, 99u8, 107u8, 77u8, 97u8, 112u8, 84u8, 97u8, 98u8, 108u8, 101u8,
            ],
            AttributeTag::Exceptions => vec![
                69u8, 120u8, 99u8, 101u8, 112u8, 116u8, 105u8, 111u8, 110u8, 115u8,
            ],
            AttributeTag::InnerClasses => vec![
                73u8, 110u8, 110u8, 101u8, 114u8, 67u8, 108u8, 97u8, 115u8, 115u8, 101u8, 115u8,
            ],
            AttributeTag::EnclosingMethod => vec![
                69u8, 110u8, 99u8, 108u8, 111u8, 115u8, 105u8, 110u8, 103u8, 77u8, 101u8, 116u8,
                104u8, 111u8, 100u8,
            ],
            AttributeTag::Synthetic => vec![
                83u8, 121u8, 110u8, 116u8, 104u8, 101u8, 116u8, 105u8, 99u8,
            ],
            AttributeTag::Signature => vec![
                83u8, 105u8, 103u8, 110u8, 97u8, 116u8, 117u8, 114u8, 101u8,
            ],
            AttributeTag::SourceFile => vec![
                83u8, 111u8, 117u8, 114u8, 99u8, 101u8, 70u8, 105u8, 108u8, 101u8,
            ],
            AttributeTag::SourceDebugExtension => vec![
                83u8, 111u8, 117u8, 114u8, 99u8, 101u8, 68u8, 101u8, 98u8, 117u8, 103u8, 69u8,
                120u8, 116u8, 101u8, 110u8, 115u8, 105u8, 111u8, 110u8,
            ],
            AttributeTag::LineNumberTable => vec![
                76u8, 105u8, 110u8, 101u8, 78u8, 117u8, 109u8, 98u8, 101u8, 114u8, 84u8, 97u8,
                98u8, 108u8, 101u8,
            ],
            AttributeTag::LocalVariableTable => vec![
                76u8, 111u8, 99u8, 97u8, 108u8, 86u8, 97u8, 114u8, 105u8, 97u8, 98u8, 108u8, 101u8,
                84u8, 97u8, 98u8, 108u8, 101u8,
            ],
            AttributeTag::LocalVariableTypeTable => vec![
                76u8, 111u8, 99u8, 97u8, 108u8, 86u8, 97u8, 114u8, 105u8, 97u8, 98u8, 108u8, 101u8,
                84u8, 121u8, 112u8, 101u8, 84u8, 97u8, 98u8, 108u8, 101u8,
            ],
            AttributeTag::Deprecated => vec![
                68u8, 101u8, 112u8, 114u8, 101u8, 99u8, 97u8, 116u8, 101u8, 100u8,
            ],
            AttributeTag::RuntimeVisibleAnnotations => vec![
                82u8, 117u8, 110u8, 116u8, 105u8, 109u8, 101u8, 86u8, 105u8, 115u8, 105u8, 98u8,
                108u8, 101u8, 65u8, 110u8, 110u8, 111u8, 116u8, 97u8, 116u8, 105u8, 111u8, 110u8,
                115u8,
            ],
            AttributeTag::RuntimeInvisibleAnnotations => vec![
                82u8, 117u8, 110u8, 116u8, 105u8, 109u8, 101u8, 73u8, 110u8, 118u8, 105u8, 115u8,
                105u8, 98u8, 108u8, 101u8, 65u8, 110u8, 110u8, 111u8, 116u8, 97u8, 116u8, 105u8,
                111u8, 110u8, 115u8,
            ],
            AttributeTag::RuntimeVisibleParameterAnnotations => vec![
                82u8, 117u8, 110u8, 116u8, 105u8, 109u8, 101u8, 86u8, 105u8, 115u8, 105u8, 98u8,
                108u8, 101u8, 80u8, 97u8, 114u8, 97u8, 109u8, 101u8, 116u8, 101u8, 114u8, 65u8,
                110u8, 110u8, 111u8, 116u8, 97u8, 116u8, 105u8, 111u8, 110u8, 115u8,
            ],
            AttributeTag::RuntimeInvisibleParameterAnnotations => vec![
                82u8, 117u8, 110u8, 116u8, 105u8, 109u8, 101u8, 73u8, 110u8, 118u8, 105u8, 115u8,
                105u8, 98u8, 108u8, 101u8, 80u8, 97u8, 114u8, 97u8, 109u8, 101u8, 116u8, 101u8,
                114u8, 65u8, 110u8, 110u8, 111u8, 116u8, 97u8, 116u8, 105u8, 111u8, 110u8, 115u8,
            ],
            AttributeTag::AnnotationDefault => vec![
                65u8, 110u8, 110u8, 111u8, 116u8, 97u8, 116u8, 105u8, 111u8, 110u8, 68u8, 101u8,
                102u8, 97u8, 117u8, 108u8, 116u8,
            ],
            AttributeTag::BootstrapMethods => vec![
                66u8, 111u8, 111u8, 116u8, 115u8, 116u8, 114u8, 97u8, 112u8, 77u8, 101u8, 116u8,
                104u8, 111u8, 100u8, 115u8,
            ],
            AttributeTag::Unknown => Vec::new(),
        };
        proof {
            assert(r@ =~= self.spec_name());
        }
        r
    }

    /// Map a name's byte content to its tag, by exact byte match.
    pub fn from_name(name: &[u8]) -> (t: AttributeTag)
        ensures
            t == AttributeTag::spec_from_name(name@),
    {
        if bytes_eq(name, AttributeTag::ConstantValue.name_bytes().as_slice()) {
            AttributeTag::ConstantValue
        } else if bytes_eq(name, AttributeTag::Code.name_bytes().as_slice()) {
            AttributeTag::Code
        } else if bytes_eq(name, AttributeTag::StackMapTable.name_bytes().as_slice()) {
            AttributeTag::StackMapTable
        } else if bytes_eq(name, AttributeTag::Exceptions.name_bytes().as_slice()) {
            AttributeTag::Exceptions
        } else if bytes_eq(name, AttributeTag::InnerClasses.name_bytes().as_slice()) {
            AttributeTag::InnerClasses
        } else if bytes_eq(name, AttributeTag::EnclosingMethod.name_bytes().as_slice()) {
            AttributeTag::EnclosingMethod
        } else if bytes_eq(name, AttributeTag::Synthetic.name_bytes().as_slice()) {
            AttributeTag::Synthetic
        } else if bytes_eq(name, AttributeTag::Signature.name_bytes().as_slice()) {
            AttributeTag::Signature
        } else if bytes_eq(name, AttributeTag::SourceFile.name_bytes().as_slice()) {
            AttributeTag::SourceFile
        } else if bytes_eq(name, AttributeTag::SourceDebugExtension.name_bytes().as_slice()) {
            AttributeTag::SourceDebugExtension
        } else if bytes_eq(name, AttributeTag::LineNumberTable.name_bytes().as_slice()) {
            AttributeTag::LineNumberTable
        } else if bytes_eq(name, AttributeTag::LocalVariableTable.name_bytes().as_slice()) {
            AttributeTag::LocalVariableTable
        } else if bytes_eq(name, AttributeTag::LocalVariableTypeTable.name_bytes().as_slice()) {
            AttributeTag::LocalVariableTypeTable
        } else if bytes_eq(name, AttributeTag::Deprecated.name_bytes().as_slice()) {
            AttributeTag::Deprecated
        } else if bytes_eq(name, AttributeTag::RuntimeVisibleAnnotations.name_bytes().as_slice()) {
            AttributeTag::RuntimeVisibleAnnotations
        } else if bytes_eq(
            name,
            AttributeTag::RuntimeInvisibleAnnotations.name_bytes().as_slice(),
        ) {
            AttributeTag::RuntimeInvisibleAnnotations
        } else if bytes_eq(
            name,
            AttributeTag::RuntimeVisibleParameterAnnotations.name_bytes().as_slice(),
        ) {
            AttributeTag::RuntimeVisibleParameterAnnotations
        } else if bytes_eq(
            name,
            AttributeTag::RuntimeInvisibleParameterAnnotations.name_bytes().as_slice(),
        ) {
            AttributeTag::RuntimeInvisibleParameterAnnotations
        } else if bytes_eq(name, AttributeTag::AnnotationDefault.name_bytes().as_slice()) {
            AttributeTag::AnnotationDefault
        } else if bytes_eq(name, AttributeTag::BootstrapMethods.name_bytes().as_slice()) {
            AttributeTag::BootstrapMethods
        } else {
            AttributeTag::Unknown
        }
    }
}

/// Whether two byte slices hold the same bytes.
#[verifier::loop_isolation(false)]
pub fn bytes_eq(a: &[u8], b: &[u8]) -> (r: bool)
    ensures
        r == (a@ == b@),
{
    if a.len() != b.len() {
        return false;
    }
    let mut i: usize = 0;
    while i < a.len()
        invariant
            i <= a@.len(),
            forall|j: int| 0 <= j < i ==> a@[j] == b@[j],
        decreases a@.len() - i,
    {
        if a[i] != b[i] {
            return false;
        }
        i = i + 1;
    }
    proof {
        assert(a@ =~= b@);
    }
    true
}

/// A decoded attribute: one variant per well-known body grammar, plus
/// `Opaque` for an unrecognized name, holding the raw declared bytes.
#[derive(Debug)]
pub enum Attribute {
    ConstantValue { constant_value_index: u16 },
    Code {
        max_stack: u16,
        max_locals: u16,
        code: Vec<u8>,
        exception_table: Vec<ExceptionHandler>,
        attributes: Vec<Attribute>,
    },
    StackMapTable { entries: Vec<StackMapFrame> },
    Exceptions { number_of_exceptions: u16, exception_index_table: Vec<u16> },
    InnerClasses { classes: Vec<InnerClass> },
    EnclosingMethod { class_index: u16, method_index: u16 },
    Synthetic,
    Signature { signature_index: u16 },
    SourceFile { source_file_index: u16 },
    SourceDebugExtension { debug_extension: Vec<u8> },
    LineNumberTable { line_number_table: Vec<LineNumber> },
    LocalVariableTable { local_variable_table: Vec<LocalVariable> },
    LocalVariableTypeTable { local_variable_type_table: Vec<LocalVariable> },
    Deprecated,
    RuntimeVisibleAnnotations { annotations: Vec<Annotation> },
    RuntimeInvisibleAnnotations { annotations: Vec<Annotation> },
    RuntimeVisibleParameterAnnotations { parameter_annotations: Vec<Vec<Annotation>> },
    RuntimeInvisibleParameterAnnotations { parameter_annotations: Vec<Vec<Annotation>> },
    AnnotationDefault { default_value: ElementValue },
    BootstrapMethods { bootstrap_methods: Vec<BootstrapMethod> },
    Opaque { attribute_name_index: u16, info: Vec<u8> },
}

/// Mathematical model of an attribute.
pub enum SpecAttribute {
    ConstantValue { constant_value_index: u16 },
    Code {
        max_stack: u16,
        max_locals: u16,
        code: Seq<u8>,
        exception_table: Seq<ExceptionHandler>,
        attributes: Seq<SpecAttribute>,
    },
    StackMapTable { entries: Seq<SpecStackMapFrame> },
    Exceptions { number_of_exceptions: u16, exception_index_table: Seq<u16> },
    InnerClasses { classes: Seq<InnerClass> },
    EnclosingMethod { class_index: u16, method_index: u16 },
    Synthetic,
    Signature { signature_index: u16 },
    SourceFile { source_file_index: u16 },
    SourceDebugExtension { debug_extension: Seq<u8> },
    LineNumberTable { line_number_table: Seq<LineNumber> },
    LocalVariableTable { local_variable_table: Seq<LocalVariable> },
    LocalVariableTypeTable { local_variable_type_table: Seq<LocalVariable> },
    Deprecated,
    RuntimeVisibleAnnotations { annotations: Seq<SpecAnnotation> },
    RuntimeInvisibleAnnotations { annotations: Seq<SpecAnnotation> },
    RuntimeVisibleParameterAnnotations { parameter_annotations: Seq<Seq<SpecAnnotation>> },
    RuntimeInvisibleParameterAnnotations { parameter_annotations: Seq<Seq<SpecAnnotation>> },
    AnnotationDefault { default_value: SpecElementValue },
    BootstrapMethods { bootstrap_methods: Seq<SpecBootstrapMethod> },
    Opaque { attribute_name_index: u16, info: Seq<u8> },
}

/// The model of an attribute.
pub open spec fn spec_attribute_view(a: Attribute) -> SpecAttribute
    decreases a,
{
    match a {
        Attribute::ConstantValue { constant_value_index } => (SpecAttribute::ConstantValue {
            constant_value_index,
        }),
        Attribute::Code { max_stack, max_locals, code, exception_table, attributes } => {
            proof {
                assert(decreases_to!(a => attributes));
                assert(decreases_to!(attributes => attributes@));
            }
            (SpecAttribute::Code {
                max_stack,
                max_locals,
                code: code@,
                exception_table: exception_table@,
                attributes: spec_attributes_view(attributes@),
            })
        },
        Attribute::StackMapTable { entries } => (SpecAttribute::StackMapTable {
            entries: spec_frames_view(entries@),
        }),
        Attribute::Exceptions { number_of_exceptions, exception_index_table } => (
        SpecAttribute::Exceptions {
            number_of_exceptions,
            exception_index_table: exception_index_table@,
        }),
        Attribute::InnerClasses { classes } => (SpecAttribute::InnerClasses { classes: classes@ }),
        Attribute::EnclosingMethod { class_index, method_index } => (
        SpecAttribute::EnclosingMethod { class_index, method_index }),
        Attribute::Synthetic => SpecAttribute::Synthetic,
        Attribute::Signature { signature_index } => (SpecAttribute::Signature { signature_index }),
        Attribute::SourceFile { source_file_index } => (SpecAttribute::SourceFile {
            source_file_index,
        }),
        Attribute::SourceDebugExtension { debug_extension } => (SpecAttribute::SourceDebugExtension {
            debug_extension: debug_extension@,
        }),
        Attribute::LineNumberTable { line_number_table } => (SpecAttribute::LineNumberTable {
            line_number_table: line_number_table@,
        }),
        Attribute::LocalVariableTable { local_variable_table } => (
        SpecAttribute::LocalVariableTable { local_variable_table: local_variable_table@ }),
        Attribute::LocalVariableTypeTable { local_variable_type_table } => (
        SpecAttribute::LocalVariableTypeTable {
            local_variable_type_table: local_variable_type_table@,
        }),
        Attribute::Deprecated => SpecAttribute::Deprecated,
        Attribute::RuntimeVisibleAnnotations { annotations } => (
        SpecAttribute::RuntimeVisibleAnnotations {
            annotations: spec_annotations_view(annotations@),
        }),
        Attribute::RuntimeInvisibleAnnotations { annotations } => (
        SpecAttribute::RuntimeInvisibleAnnotations {
            annotations: spec_annotations_view(annotations@),
        }),
        Attribute::RuntimeVisibleParameterAnnotations { parameter_annotations } => (
        SpecAttribute::RuntimeVisibleParameterAnnotations {
            parameter_annotations: spec_param_annotations_view(parameter_annotations@),
        }),
        Attribute::RuntimeInvisibleParameterAnnotations { parameter_annotations } => (
        SpecAttribute::RuntimeInvisibleParameterAnnotations {
            parameter_annotations: spec_param_annotations_view(parameter_annotations@),
        }),
        Attribute::AnnotationDefault { default_value } => (SpecAttribute::AnnotationDefault {
            default_value: spec_element_value_view(default_value),
        }),
        Attribute::BootstrapMethods { bootstrap_methods } => (SpecAttribute::BootstrapMethods {
            bootstrap_methods: spec_bootstrap_methods_view(bootstrap_methods@),
        }),
        Attribute::Opaque { attribute_name_index, info } => (SpecAttribute::Opaque {
            attribute_name_index,
            info: info@,
        }),
    }
}

/// The model of a sequence of attributes.
pub open spec fn spec_attributes_view(s: Seq<Attribute>) -> Seq<SpecAttribute>
    decreases s,
{
    if s.len() == 0 {
        Seq::empty()
    } else {
        proof {
            assert(decreases_to!(s => s.subrange(0, s.len() - 1)));
            assert(decreases_to!(s => s[s.len() - 1]));
        }
        spec_attributes_view(s.subrange(0, s.len() - 1)).push(spec_attribute_view(s[s.len() - 1]))
    }
}

impl View for Attribute {
    type V = SpecAttribute;

    open spec fn view(&self) -> SpecAttribute {
        spec_attribute_view(*self)
    }
}

proof fn lemma_attributes_view_push(s: Seq<Attribute>, x: Attribute)
    ensures
        spec_attributes_view(s.push(x)) == spec_attributes_view(s).push(spec_attribute_view(x)),
{
    assert(s.push(x).subrange(0, s.push(x).len() - 1) =~= s);
    assert(s.push(x)[s.push(x).len() - 1] == x);
}

/// Parsing `n` 16-bit values in a row, accumulating onto `acc`.
pub open spec fn spec_parse_u16_list(data: Seq<u8>, pos: int, acc: Seq<u16>, n: int) -> Result<
    (Seq<u16>, int),
    SpecDecodeError,
>
    decreases n - acc.len(),
{
    if acc.len() >= n {
        Ok((acc, pos))
    } else {
        match spec_read_u16(data, pos) {
            Err(e) => Err(e),
            Ok((v, p)) => spec_parse_u16_list(data, p, acc.push(v), n),
        }
    }
}

/// Decode `n` 16-bit values in a row.
#[verifier::loop_isolation(false)]
pub fn u16_list(cur: &mut Cursor, n: u16) -> (r: Result<Vec<u16>, DecodeError>)
    requires
        old(cur).wf(),
    ensures
        final(cur).data@ == old(cur).data@,
        final(cur).wf(),
        old(cur).pos <= final(cur).pos,
        match r {
            Ok(v) => {
                &&& spec_parse_u16_list(old(cur).data@, old(cur).pos as int, Seq::empty(), n as int)
                    matches Ok(s)
                &&& s == (v@, final(cur).pos as int)
            },
            Err(e) => {
                &&& spec_parse_u16_list(old(cur).data@, old(cur).pos as int, Seq::empty(), n as int)
                    matches Err(se)
                &&& se == e@
            },
        },
{
    let ghost data = old(cur).data@;
    let ghost p_start = old(cur).pos as int;
    let mut out: Vec<u16> = Vec::new();
    while out.len() < n as usize
        invariant
            cur.wf(),
            cur.data@ == data,
            old(cur).pos <= cur.pos,
            out@.len() <= n as usize,
            spec_parse_u16_list(data, cur.pos as int, out@, n as int) == spec_parse_u16_list(
                data,
                p_start,
                Seq::empty(),
                n as int,
            ),
        decreases n as int - out@.len(),
    {
        let v = cur.read_u16()?;
        out.push(v);
    }
    Ok(out)
}

/// Parsing one exception table row: four 16-bit fields.
pub open spec fn spec_parse_exception_handler(data: Seq<u8>, pos: int) -> Result<
    (ExceptionHandler, int),
    SpecDecodeError,
> {
    if pos + 8 <= data.len() {
        Ok(
            (
                ExceptionHandler {
                    start_pc: crate::cursor::spec_be_u16(data, pos),
                    end_pc: crate::cursor::spec_be_u16(data, pos + 2),
                    handler_pc: crate::cursor::spec_be_u16(data, pos + 4),
                    catch_type: crate::cursor::spec_be_u16(data, pos + 6),
                },
                pos + 8,
            ),
        )
    } else {
        match spec_read_u16(data, pos) {
            Err(e) => Err(e),
            Ok((_, p)) => match spec_read_u16(data, p) {
                Err(e) => Err(e),
                Ok((_, p2)) => match spec_read_u16(data, p2) {
                    Err(e) => Err(e),
                    Ok((_, p3)) => match spec_read_u16(data, p3) {
                        Err(e) => Err(e),
                        Ok(_) => Err(crate::cursor::spec_eof(pos)),
                    },
                },
            },
        }
    }
}

/// Decode one exception table row.
pub fn exception_handler(cur: &mut Cursor) -> (r: Result<ExceptionHandler, DecodeError>)
    requires
        old(cur).wf(),
    ensures
        final(cur).data@ == old(cur).data@,
        final(cur).wf(),
        old(cur).pos <= final(cur).pos,
        match r {
            Ok(v) => {
                &&& spec_parse_exception_handler(old(cur).data@, old(cur).pos as int) matches Ok(s)
                &&& s == (v, final(cur).pos as int)
            },
            Err(e) => {
                &&& spec_parse_exception_handler(old(cur).data@, old(cur).pos as int) matches Err(
                se)
                &&& se == e@
            },
        },
{
    let start_pc = cur.read_u16()?;
    let end_pc = cur.read_u16()?;
    let handler_pc = cur.read_u16()?;
    let catch_type = cur.read_u16()?;
    Ok(ExceptionHandler { start_pc, end_pc, handler_pc, catch_type })
}

/// Parsing `n` exception table rows, accumulating onto `acc`.
pub open spec fn spec_parse_exception_handler_list(
    data: Seq<u8>,
    pos: int,
    acc: Seq<ExceptionHandler>,
    n: int,
) -> Result<(Seq<ExceptionHandler>, int), SpecDecodeError>
    decreases n - acc.len(),
{
    if acc.len() >= n {
        Ok((acc, pos))
    } else {
        match spec_parse_exception_handler(data, pos) {
            Err(e) => Err(e),
            Ok((v, p)) => spec_parse_exception_handler_list(data, p, acc.push(v), n),
        }
    }
}

/// Parsing a `Code` body's exception table: a count, then that many rows.
pub open spec fn spec_parse_exception_table(data: Seq<u8>, pos: int) -> Result<
    (Seq<ExceptionHandler>, int),
    SpecDecodeError,
> {
    match spec_read_u16(data, pos) {
        Err(e) => Err(e),
        Ok((count, p)) => if count * 8 > data.len() - p {
            Err(
                SpecDecodeError {
                    kind: DecodeErrorKind::CollectionLengthExceedsRemainingInput,
                    offset: p,
                },
            )
        } else {
            spec_parse_exception_handler_list(data, p, Seq::empty(), count as int)
        },
    }
}

/// Decode a `Code` body's exception table.
#[verifier::loop_isolation(false)]
pub fn exception_table(cur: &mut Cursor) -> (r: Result<Vec<ExceptionHandler>, DecodeError>)
    requires
        old(cur).wf(),
    ensures
        final(cur).data@ == old(cur).data@,
        final(cur).wf(),
        old(cur).pos <= final(cur).pos,
        match r {
            Ok(v) => {
                &&& spec_parse_exception_table(old(cur).data@, old(cur).pos as int) matches Ok(s)
                &&& s == (v@, final(cur).pos as int)
            },
            Err(e) => {
                &&& spec_parse_exception_table(old(cur).data@, old(cur).pos as int) matches Err(se)
                &&& se == e@
            },
        },
{
    let ghost data = old(cur).data@;
    let count = cur.read_u16()?;
    if (count as usize) * 8 > cur.remaining() {
        return Err(
            DecodeError {
                kind: DecodeErrorKind::CollectionLengthExceedsRemainingInput,
                offset: cur.pos,
            },
        );
    }
    let ghost p_start = cur.pos as int;
    let mut out: Vec<ExceptionHandler> = Vec::new();
    while out.len() < count as usize
        invariant
            cur.wf(),
            cur.data@ == data,
            old(cur).pos <= cur.pos,
            out@.len() <= count as usize,
            spec_parse_exception_handler_list(data, cur.pos as int, out@, count as int)
                == spec_parse_exception_handler_list(data, p_start, Seq::empty(), count as int),
        decreases count as int - out@.len(),
    {
        let h = exception_handler(cur)?;
        out.push(h);
    }
    Ok(out)
}

/// Parsing one `InnerClasses` row: four 16-bit fields.
pub open spec fn spec_parse_inner_class(data: Seq<u8>, pos: int) -> Result<
    (InnerClass, int),
    SpecDecodeError,
> {
    if pos + 8 <= data.len() {
        Ok(
            (
                InnerClass {
                    inner_class_info: crate::cursor::spec_be_u16(data, pos),
                    outer_class_info: crate::cursor::spec_be_u16(data, pos + 2),
                    inner_name_index: crate::cursor::spec_be_u16(data, pos + 4),
                    inner_class_access_flags: crate::cursor::spec_be_u16(data, pos + 6),
                },
                pos + 8,
            ),
        )
    } else if pos + 2 > data.len() {
        Err(crate::cursor::spec_eof(pos))
    } else if pos + 4 > data.len() {
        Err(crate::cursor::spec_eof(pos + 2))
    } else if pos + 6 > data.len() {
        Err(crate::cursor::spec_eof(pos + 4))
    } else {
        Err(crate::cursor::spec_eof(pos + 6))
    }
}

/// Decode one `InnerClasses` row.
pub fn inner_class(cur: &mut Cursor) -> (r: Result<InnerClass, DecodeError>)
    requires
        old(cur).wf(),
    ensures
        final(cur).data@ == old(cur).data@,
        final(cur).wf(),
        old(cur).pos <= final(cur).pos,
        match r {
            Ok(v) => {
                &&& spec_parse_inner_class(old(cur).data@, old(cur).pos as int) matches Ok(s)
                &&& s == (v, final(cur).pos as int)
            },
            Err(e) => {
                &&& spec_parse_inner_class(old(cur).data@, old(cur).pos as int) matches Err(se)
                &&& se == e@
            },
        },
{
    let inner_class_info = cur.read_u16()?;
    let outer_class_info = cur.read_u16()?;
    let inner_name_index = cur.read_u16()?;
    let inner_class_access_flags = cur.read_u16()?;
    Ok(InnerClass { inner_class_info, outer_class_info, inner_name_index, inner_class_access_flags })
}

/// Parsing `n` `InnerClasses` rows, accumulating onto `acc`.
pub open spec fn spec_parse_inner_class_list(
    data: Seq<u8>,
    pos: int,
    acc: Seq<InnerClass>,
    n: int,
) -> Result<(Seq<InnerClass>, int), SpecDecodeError>
    decreases n - acc.len(),
{
    if acc.len() >= n {
        Ok((acc, pos))
    } else {
        match spec_parse_inner_class(data, pos) {
            Err(e) => Err(e),
            Ok((v, p)) => spec_parse_inner_class_list(data, p, acc.push(v), n),
        }
    }
}

/// Parsing one `LineNumberTable` row: two 16-bit fields.
pub open spec fn spec_parse_line_number(data: Seq<u8>, pos: int) -> Result<
    (LineNumber, int),
    SpecDecodeError,
> {
    if pos + 4 <= data.len() {
        Ok(
            (
                LineNumber {
                    start_pc: crate::cursor::spec_be_u16(data, pos),
                    line_number: crate::cursor::spec_be_u16(data, pos + 2),
                },
                pos + 4,
            ),
        )
    } else if pos + 2 > data.len() {
        Err(crate::cursor::spec_eof(pos))
    } else {
        Err(crate::cursor::spec_eof(pos + 2))
    }
}

/// Decode one `LineNumberTable` row.
pub fn line_number(cur: &mut Cursor) -> (r: Result<LineNumber, DecodeError>)
    requires
        old(cur).wf(),
    ensures
        final(cur).data@ == old(cur).data@,
        final(cur).wf(),
        old(cur).pos <= final(cur).pos,
        match r {
            Ok(v) => {
                &&& spec_parse_line_number(old(cur).data@, old(cur).pos as int) matches Ok(s)
                &&& s == (v, final(cur).pos as int)
            },
            Err(e) => {
                &&& spec_parse_line_number(old(cur).data@, old(cur).pos as int) matches Err(se)
                &&& se == e@
            },
        },
{
    let start_pc = cur.read_u16()?;
    let line_number = cur.read_u16()?;
    Ok(LineNumber { start_pc, line_number })
}

/// Parsing `n` `LineNumberTable` rows, accumulating onto `acc`.
pub open spec fn spec_parse_line_number_list(
    data: Seq<u8>,
    pos: int,
    acc: Seq<LineNumber>,
    n: int,
) -> Result<(Seq<LineNumber>, int), SpecDecodeError>
    decreases n - acc.len(),
{
    if acc.len() >= n {
        Ok((acc, pos))
    } else {
        match spec_parse_line_number(data, pos) {
            Err(e) => Err(e),
            Ok((v, p)) => spec_parse_line_number_list(data, p, acc.push(v), n),
        }
    }
}

/// Parsing one local variable row: five 16-bit fields.
pub open spec fn spec_parse_local_variable(data: Seq<u8>, pos: int) -> Result<
    (LocalVariable, int),
    SpecDecodeError,
> {
    if pos + 10 <= data.len() {
        Ok(
            (
                LocalVariable {
                    start_pc: crate::cursor::spec_be_u16(data, pos),
                    length: crate::cursor::spec_be_u16(data, pos + 2),
                    name_index: crate::cursor::spec_be_u16(data, pos + 4),
                    descriptor_index: crate::cursor::spec_be_u16(data, pos + 6),
                    index: crate::cursor::spec_be_u16(data, pos + 8),
                },
                pos + 10,
            ),
        )
    } else if pos + 2 > data.len() {
        Err(crate::cursor::spec_eof(pos))
    } else if pos + 4 > data.len() {
        Err(crate::cursor::spec_eof(pos + 2))
    } else if pos + 6 > data.len() {
        Err(crate::cursor::spec_eof(pos + 4))
    } else if pos + 8 > data.len() {
        Err(crate::cursor::spec_eof(pos + 6))
    } else {
        Err(crate::cursor::spec_eof(pos + 8))
    }
}

/// Decode one local variable row.
pub fn local_variable(cur: &mut Cursor) -> (r: Result<LocalVariable, DecodeError>)
    requires
        old(cur).wf(),
    ensures
        final(cur).data@ == old(cur).data@,
        final(cur).wf(),
        old(cur).pos <= final(cur).pos,
        match r {
            Ok(v) => {
                &&& spec_parse_local_variable(old(cur).data@, old(cur).pos as int) matches Ok(s)
                &&& s == (v, final(cur).pos as int)
            },
            Err(e) => {
                &&& spec_parse_local_variable(old(cur).data@, old(cur).pos as int) matches Err(se)
                &&& se == e@
            },
        },
{
    let start_pc = cur.read_u16()?;
    let length = cur.read_u16()?;
    let name_index = cur.read_u16()?;
    let descriptor_index = cur.read_u16()?;
    let index = cur.read_u16()?;
    Ok(LocalVariable { start_pc, length, name_index, descriptor_index, index })
}

/// Parsing `n` local variable rows, accumulating onto `acc`.
pub open spec fn spec_parse_local_variable_list(
    data: Seq<u8>,
    pos: int,
    acc: Seq<LocalVariable>,
    n: int,
) -> Result<(Seq<LocalVariable>, int), SpecDecodeError>
    decreases n - acc.len(),
{
    if acc.len() >= n {
        Ok((acc, pos))
    } else {
        match spec_parse_local_variable(data, pos) {
            Err(e) => Err(e),
            Ok((v, p)) => spec_parse_local_variable_list(data, p, acc.push(v), n),
        }
    }
}

/// Parsing one bootstrap method row: a method handle index, an argument
/// count, then that many argument indices.
pub open spec fn spec_parse_bootstrap_method(data: Seq<u8>, pos: int) -> Result<
    (SpecBootstrapMethod, int),
    SpecDecodeError,
> {
    match spec_read_u16(data, pos) {
        Err(e) => Err(e),
        Ok((bootstrap_method_ref, p)) => match spec_read_u16(data, p) {
            Err(e) => Err(e),
            Ok((num_args, p2)) => if num_args * 2 > data.len() - p2 {
                Err(
                    SpecDecodeError {
                        kind: DecodeErrorKind::CollectionLengthExceedsRemainingInput,
                        offset: p2,
                    },
                )
            } else {
                match spec_parse_u16_list(data, p2, Seq::empty(), num_args as int) {
                    Err(e) => Err(e),
                    Ok((bootstrap_arguments, p3)) => Ok(
                        (SpecBootstrapMethod { bootstrap_method_ref, bootstrap_arguments }, p3),
                    ),
                }
            },
        },
    }
}

/// Decode one bootstrap method row.
pub fn bootstrap_method(cur: &mut Cursor) -> (r: Result<BootstrapMethod, DecodeError>)
    requires
        old(cur).wf(),
    ensures
        final(cur).data@ == old(cur).data@,
        final(cur).wf(),
        old(cur).pos <= final(cur).pos,
        match r {
            Ok(v) => {
                &&& spec_parse_bootstrap_method(old(cur).data@, old(cur).pos as int) matches Ok(s)
                &&& s == (v@, final(cur).pos as int)
            },
            Err(e) => {
                &&& spec_parse_bootstrap_method(old(cur).data@, old(cur).pos as int) matches Err(se)
                &&& se == e@
            },
        },
{
    let bootstrap_method_ref = cur.read_u16()?;
    let num_args = cur.read_u16()?;
    if (num_args as usize) * 2 > cur.remaining() {
        return Err(
            DecodeError {
                kind: DecodeErrorKind::CollectionLengthExceedsRemainingInput,
                offset: cur.pos,
            },
        );
    }
    let bootstrap_arguments = u16_list(cur, num_args)?;
    Ok(BootstrapMethod { bootstrap_method_ref, bootstrap_arguments })
}

/// Parsing `n` bootstrap method rows, accumulating onto `acc`.
pub open spec fn spec_parse_bootstrap_method_list(
    data: Seq<u8>,
    pos: int,
    acc: Seq<SpecBootstrapMethod>,
    n: int,
) -> Result<(Seq<SpecBootstrapMethod>, int), SpecDecodeError>
    decreases n - acc.len(),
{
    if acc.len() >= n {
        Ok((acc, pos))
    } else {
        match spec_parse_bootstrap_method(data, pos) {
            Err(e) => Err(e),
            Ok((v, p)) => spec_parse_bootstrap_method_list(data, p, acc.push(v), n),
        }
    }
}

/// Parsing per-parameter annotation lists: for each of `n` parameters, a
/// 16-bit count and then that many annotations.
pub open spec fn spec_parse_parameter_annotation_lists(
    data: Seq<u8>,
    pos: int,
    acc: Seq<Seq<SpecAnnotation>>,
    n: int,
    depth: int,
) -> Result<(Seq<Seq<SpecAnnotation>>, int), SpecDecodeError>
    decreases n - acc.len(),
{
    if acc.len() >= n {
        Ok((acc, pos))
    } else {
        match spec_read_u16(data, pos) {
            Err(e) => Err(e),
            Ok((count, p)) => if count * 4 > data.len() - p {
                Err(
                    SpecDecodeError {
                        kind: DecodeErrorKind::CollectionLengthExceedsRemainingInput,
                        offset: p,
                    },
                )
            } else {
                match spec_parse_annotation_list(data, p, Seq::empty(), count as int, depth) {
                    Err(e) => Err(e),
                    Ok((annotations, p2)) => spec_parse_parameter_annotation_lists(
                        data,
                        p2,
                        acc.push(annotations),
                        n,
                        depth,
                    ),
                }
            },
        }
    }
}

proof fn lemma_param_annotations_view_push(s: Seq<Vec<Annotation>>, x: Vec<Annotation>)
    ensures
        spec_param_annotations_view(s.push(x)) == spec_param_annotations_view(s).push(
            spec_annotations_view(x@),
        ),
{
    assert(spec_param_annotations_view(s.push(x)) =~= spec_param_annotations_view(s).push(
        spec_annotations_view(x@),
    ));
}

/// Decode per-parameter annotation lists for `n` parameters.
#[verifier::loop_isolation(false)]
fn parameter_annotation_lists(cur: &mut Cursor, n: u8, depth: u32) -> (r: Result<
    Vec<Vec<Annotation>>,
    DecodeError,
>)
    requires
        old(cur).wf(),
    ensures
        final(cur).data@ == old(cur).data@,
        final(cur).wf(),
        old(cur).pos <= final(cur).pos,
        match r {
            Ok(v) => {
                &&& spec_parse_parameter_annotation_lists(
                    old(cur).data@,
                    old(cur).pos as int,
                    Seq::empty(),
                    n as int,
                    depth as int,
                ) matches Ok(s)
                &&& s == (spec_param_annotations_view(v@), final(cur).pos as int)
            },
            Err(e) => {
                &&& spec_parse_parameter_annotation_lists(
                    old(cur).data@,
                    old(cur).pos as int,
                    Seq::empty(),
                    n as int,
                    depth as int,
                ) matches Err(se)
                &&& se == e@
            },
        },
{
    let ghost data = old(cur).data@;
    let ghost p_start = old(cur).pos as int;
    let mut out: Vec<Vec<Annotation>> = Vec::new();
    proof {
        assert(spec_param_annotations_view(out@) =~= Seq::<Seq<SpecAnnotation>>::empty());
    }
    while out.len() < n as usize
        invariant
            cur.wf(),
            cur.data@ == data,
            old(cur).pos <= cur.pos,
            out@.len() <= n as usize,
            spec_parse_parameter_annotation_lists(
                data,
                cur.pos as int,
                spec_param_annotations_view(out@),
                n as int,
                depth as int,
            ) == spec_parse_parameter_annotation_lists(
                data,
                p_start,
                Seq::empty(),
                n as int,
                depth as int,
            ),
        decreases n as int - out@.len(),
    {
        let count = cur.read_u16()?;
        if (count as usize) * 4 > cur.remaining() {
            return Err(
                DecodeError {
                    kind: DecodeErrorKind::CollectionLengthExceedsRemainingInput,
                    offset: cur.pos,
                },
            );
        }
        let annotations = annotation_list(cur, count, depth)?;
        proof {
            lemma_param_annotations_view_push(out@, annotations);
        }
        out.push(annotations);
    }
    Ok(out)
}

/// Decode `n` `InnerClasses` rows.
#[verifier::loop_isolation(false)]
fn inner_class_list(cur: &mut Cursor, n: u16) -> (r: Result<Vec<InnerClass>, DecodeError>)
    requires
        old(cur).wf(),
    ensures
        final(cur).data@ == old(cur).data@,
        final(cur).wf(),
        old(cur).pos <= final(cur).pos,
        match r {
            Ok(v) => {
                &&& spec_parse_inner_class_list(
                    old(cur).data@,
                    old(cur).pos as int,
                    Seq::empty(),
                    n as int,
                ) matches Ok(s)
                &&& s == (v@, final(cur).pos as int)
            },
            Err(e) => {
                &&& spec_parse_inner_class_list(
                    old(cur).data@,
                    old(cur).pos as int,
                    Seq::empty(),
                    n as int,
                ) matches Err(se)
                &&& se == e@
            },
        },
{
    let ghost data = old(cur).data@;
    let ghost p_start = old(cur).pos as int;
    let mut out: Vec<InnerClass> = Vec::new();
    while out.len() < n as usize
        invariant
            cur.wf(),
            cur.data@ == data,
            old(cur).pos <= cur.pos,
            out@.len() <= n as usize,
            spec_parse_inner_class_list(data, cur.pos as int, out@, n as int)
                == spec_parse_inner_class_list(data, p_start, Seq::empty(), n as int),
        decreases n as int - out@.len(),
    {
        let v = inner_class(cur)?;
        out.push(v);
    }
    Ok(out)
}

/// Decode `n` `LineNumberTable` rows.
#[verifier::loop_isolation(false)]
fn line_number_list(cur: &mut Cursor, n: u16) -> (r: Result<Vec<LineNumber>, DecodeError>)
    requires
        old(cur).wf(),
    ensures
        final(cur).data@ == old(cur).data@,
        final(cur).wf(),
        old(cur).pos <= final(cur).pos,
        match r {
            Ok(v) => {
                &&& spec_parse_line_number_list(
                    old(cur).data@,
                    old(cur).pos as int,
                    Seq::empty(),
                    n as int,
                ) matches Ok(s)
                &&& s == (v@, final(cur).pos as int)
            },
            Err(e) => {
                &&& spec_parse_line_number_list(
                    old(cur).data@,
                    old(cur).pos as int,
                    Seq::empty(),
                    n as int,
                ) matches Err(se)
                &&& se == e@
            },
        },
{
    let ghost data = old(cur).data@;
    let ghost p_start = old(cur).pos as int;
    let mut out: Vec<LineNumber> = Vec::new();
    while out.len() < n as usize
        invariant
            cur.wf(),
            cur.data@ == data,
            old(cur).pos <= cur.pos,
            out@.len() <= n as usize,
            spec_parse_line_number_list(data, cur.pos as int, out@, n as int)
                == spec_parse_line_number_list(data, p_start, Seq::empty(), n as int),
        decreases n as int - out@.len(),
    {
        let v = line_number(cur)?;
        out.push(v);
    }
    Ok(out)
}

/// Decode `n` local variable rows.
#[verifier::loop_isolation(false)]
fn local_variable_list(cur: &mut Cursor, n: u16) -> (r: Result<Vec<LocalVariable>, DecodeError>)
    requires
        old(cur).wf(),
    ensures
        final(cur).data@ == old(cur).data@,
        final(cur).wf(),
        old(cur).pos <= final(cur).pos,
        match r {
            Ok(v) => {
                &&& spec_parse_local_variable_list(
                    old(cur).data@,
                    old(cur).pos as int,
                    Seq::empty(),
                    n as int,
                ) matches Ok(s)
                &&& s == (v@, final(cur).pos as int)
            },
            Err(e) => {
                &&& spec_parse_local_variable_list(
                    old(cur).data@,
                    old(cur).pos as int,
                    Seq::empty(),
                    n as int,
                ) matches Err(se)
                &&& se == e@
            },
        },
{
    let ghost data = old(cur).data@;
    let ghost p_start = old(cur).pos as int;
    let mut out: Vec<LocalVariable> = Vec::new();
    while out.len() < n as usize
        invariant
            cur.wf(),
            cur.data@ == data,
            old(cur).pos <= cur.pos,
            out@.len() <= n as usize,
            spec_parse_local_variable_list(data, cur.pos as int, out@, n as int)
                == spec_parse_local_variable_list(data, p_start, Seq::empty(), n as int),
        decreases n as int - out@.len(),
    {
        let v = local_variable(cur)?;
        out.push(v);
    }
    Ok(out)
}

proof fn lemma_bootstrap_methods_view_push(s: Seq<BootstrapMethod>, x: BootstrapMethod)
    ensures
        spec_bootstrap_methods_view(s.push(x)) == spec_bootstrap_methods_view(s).push(x@),
{
    assert(spec_bootstrap_methods_view(s.push(x)) =~= spec_bootstrap_methods_view(s).push(x@));
}

/// Decode `n` bootstrap method rows.
#[verifier::loop_isolation(false)]
fn bootstrap_method_list(cur: &mut Cursor, n: u16) -> (r: Result<Vec<BootstrapMethod>, DecodeError>)
    requires
        old(cur).wf(),
    ensures
        final(cur).data@ == old(cur).data@,
        final(cur).wf(),
        old(cur).pos <= final(cur).pos,
        match r {
            Ok(v) => {
                &&& spec_parse_bootstrap_method_list(
                    old(cur).data@,
                    old(cur).pos as int,
                    Seq::empty(),
                    n as int,
                ) matches Ok(s)
                &&& s == (spec_bootstrap_methods_view(v@), final(cur).pos as int)
            },
            Err(e) => {
                &&& spec_parse_bootstrap_method_list(
                    old(cur).data@,
                    old(cur).pos as int,
                    Seq::empty(),
                    n as int,
                ) matches Err(se)
                &&& se == e@
            },
        },
{
    let ghost data = old(cur).data@;
    let ghost p_start = old(cur).pos as int;
    let mut out: Vec<BootstrapMethod> = Vec::new();
    proof {
        assert(spec_bootstrap_methods_view(out@) =~= Seq::<SpecBootstrapMethod>::empty());
    }
    while out.len() < n as usize
        invariant
            cur.wf(),
            cur.data@ == data,
            old(cur).pos <= cur.pos,
            out@.len() <= n as usize,
            spec_parse_bootstrap_method_list(
                data,
                cur.pos as int,
                spec_bootstrap_methods_view(out@),
                n as int,
            ) == spec_parse_bootstrap_method_list(data, p_start, Seq::empty(), n as int),
        decreases n as int - out@.len(),
    {
        let v = bootstrap_method(cur)?;
        proof {
            lemma_bootstrap_methods_view_push(out@, v);
        }
        out.push(v);
    }
    Ok(out)
}

/// Parsing one attribute body, after its header, by the grammar the
/// resolved name selects. An unrecognized name takes the declared length
/// verbatim as an `Opaque` attribute.
pub open spec fn spec_parse_attribute_body(
    data: Seq<u8>,
    pos: int,
    table: Seq<Option<SpecConstantPoolType>>,
    tag: AttributeTag,
    name_index: u16,
    length: u32,
    depth: int,
) -> Result<(SpecAttribute, int), SpecDecodeError>
    decreases depth, 1int, 0int,
{
    if depth <= 0 {
        Err(SpecDecodeError { kind: DecodeErrorKind::RecursionLimitExceeded, offset: pos })
    } else {
        match tag {
        AttributeTag::ConstantValue => match spec_read_u16(data, pos) {
            Err(e) => Err(e),
            Ok((constant_value_index, p)) => Ok(
                (SpecAttribute::ConstantValue { constant_value_index }, p),
            ),
        },
        AttributeTag::Code => match spec_read_u16(data, pos) {
            Err(e) => Err(e),
            Ok((max_stack, p)) => match spec_read_u16(data, p) {
                Err(e) => Err(e),
                Ok((max_locals, p2)) => match spec_read_u32(data, p2) {
                    Err(e) => Err(e),
                    Ok((code_length, p3)) => match spec_read_bytes(data, p3, code_length as int) {
                        Err(e) => Err(e),
                        Ok((code, p4)) => match spec_parse_exception_table(data, p4) {
                            Err(e) => Err(e),
                            Ok((exception_table, p5)) => match spec_parse_attributes(
                                data,
                                p5,
                                table,
                                depth - 1,
                            ) {
                                Err(e) => Err(e),
                                Ok((attributes, p6)) => Ok(
                                    (
                                        SpecAttribute::Code {
                                            max_stack,
                                            max_locals,
                                            code,
                                            exception_table,
                                            attributes,
                                        },
                                        p6,
                                    ),
                                ),
                            },
                        },
                    },
                },
            },
        },
        AttributeTag::StackMapTable => match spec_parse_stack_map_table(data, pos) {
            Err(e) => Err(e),
            Ok((entries, p)) => Ok((SpecAttribute::StackMapTable { entries }, p)),
        },
        AttributeTag::Exceptions => match spec_read_u16(data, pos) {
            Err(e) => Err(e),
            Ok((count, p)) => if count * 2 > data.len() - p {
                Err(
                    SpecDecodeError {
                        kind: DecodeErrorKind::CollectionLengthExceedsRemainingInput,
                        offset: p,
                    },
                )
            } else {
                match spec_parse_u16_list(data, p, Seq::empty(), count as int) {
                    Err(e) => Err(e),
                    Ok((exception_index_table, p2)) => Ok(
                        (
                            SpecAttribute::Exceptions {
                                number_of_exceptions: count,
                                exception_index_table,
                            },
                            p2,
                        ),
                    ),
                }
            },
        },
        AttributeTag::InnerClasses => match spec_read_u16(data, pos) {
            Err(e) => Err(e),
            Ok((count, p)) => if count * 8 > data.len() - p {
                Err(
                    SpecDecodeError {
                        kind: DecodeErrorKind::CollectionLengthExceedsRemainingInput,
                        offset: p,
                    },
                )
            } else {
                match spec_parse_inner_class_list(data, p, Seq::empty(), count as int) {
                    Err(e) => Err(e),
                    Ok((classes, p2)) => Ok((SpecAttribute::InnerClasses { classes }, p2)),
                }
            },
        },
        AttributeTag::EnclosingMethod => match spec_read_u16(data, pos) {
            Err(e) => Err(e),
            Ok((class_index, p)) => match spec_read_u16(data, p) {
                Err(e) => Err(e),
                Ok((method_index, p2)) => Ok(
                    (SpecAttribute::EnclosingMethod { class_index, method_index }, p2),
                ),
            },
        },
        AttributeTag::Synthetic => Ok((SpecAttribute::Synthetic, pos)),
        AttributeTag::Signature => match spec_read_u16(data, pos) {
            Err(e) => Err(e),
            Ok((signature_index, p)) => Ok((SpecAttribute::Signature { signature_index }, p)),
        },
        AttributeTag::SourceFile => match spec_read_u16(data, pos) {
            Err(e) => Err(e),
            Ok((source_file_index, p)) => Ok((SpecAttribute::SourceFile { source_file_index }, p)),
        },
        AttributeTag::SourceDebugExtension => match spec_read_bytes(data, pos, length as int) {
            Err(e) => Err(e),
            Ok((debug_extension, p)) => Ok(
                (SpecAttribute::SourceDebugExtension { debug_extension }, p),
            ),
        },
        AttributeTag::LineNumberTable => match spec_read_u16(data, pos) {
            Err(e) => Err(e),
            Ok((count, p)) => if count * 4 > data.len() - p {
                Err(
                    SpecDecodeError {
                        kind: DecodeErrorKind::CollectionLengthExceedsRemainingInput,
                        offset: p,
                    },
                )
            } else {
                match spec_parse_line_number_list(data, p, Seq::empty(), count as int) {
                    Err(e) => Err(e),
                    Ok((line_number_table, p2)) => Ok(
                        (SpecAttribute::LineNumberTable { line_number_table }, p2),
                    ),
                }
            },
        },
        AttributeTag::LocalVariableTable => match spec_read_u16(data, pos) {
            Err(e) => Err(e),
            Ok((count, p)) => if count * 10 > data.len() - p {
                Err(
                    SpecDecodeError {
                        kind: DecodeErrorKind::CollectionLengthExceedsRemainingInput,
                        offset: p,
                    },
                )
            } else {
                match spec_parse_local_variable_list(data, p, Seq::empty(), count as int) {
                    Err(e) => Err(e),
                    Ok((local_variable_table, p2)) => Ok(
                        (SpecAttribute::LocalVariableTable { local_variable_table }, p2),
                    ),
                }
            },
        },
        AttributeTag::LocalVariableTypeTable => match spec_read_u16(data, pos) {
            Err(e) => Err(e),
            Ok((count, p)) => if count * 10 > data.len() - p {
                Err(
                    SpecDecodeError {
                        kind: DecodeErrorKind::CollectionLengthExceedsRemainingInput,
                        offset: p,
                    },
                )
            } else {
                match spec_parse_local_variable_list(data, p, Seq::empty(), count as int) {
                    Err(e) => Err(e),
                    Ok((local_variable_type_table, p2)) => Ok(
                        (SpecAttribute::LocalVariableTypeTable { local_variable_type_table }, p2),
                    ),
                }
            },
        },
        AttributeTag::Deprecated => Ok((SpecAttribute::Deprecated, pos)),
        AttributeTag::RuntimeVisibleAnnotations => match spec_read_u16(data, pos) {
            Err(e) => Err(e),
            Ok((count, p)) => if count * 4 > data.len() - p {
                Err(
                    SpecDecodeError {
                        kind: DecodeErrorKind::CollectionLengthExceedsRemainingInput,
                        offset: p,
                    },
                )
            } else {
                match spec_parse_annotation_list(data, p, Seq::empty(), count as int, depth) {
                    Err(e) => Err(e),
                    Ok((annotations, p2)) => Ok(
                        (SpecAttribute::RuntimeVisibleAnnotations { annotations }, p2),
                    ),
                }
            },
        },
        AttributeTag::RuntimeInvisibleAnnotations => match spec_read_u16(data, pos) {
            Err(e) => Err(e),
            Ok((count, p)) => if count * 4 > data.len() - p {
                Err(
                    SpecDecodeError {
                        kind: DecodeErrorKind::CollectionLengthExceedsRemainingInput,
                        offset: p,
                    },
                )
            } else {
                match spec_parse_annotation_list(data, p, Seq::empty(), count as int, depth) {
                    Err(e) => Err(e),
                    Ok((annotations, p2)) => Ok(
                        (SpecAttribute::RuntimeInvisibleAnnotations { annotations }, p2),
                    ),
                }
            },
        },
        AttributeTag::RuntimeVisibleParameterAnnotations => match spec_read_u8(data, pos) {
            Err(e) => Err(e),
            Ok((num_params, p)) => match spec_parse_parameter_annotation_lists(
                data,
                p,
                Seq::empty(),
                num_params as int,
                depth,
            ) {
                Err(e) => Err(e),
                Ok((parameter_annotations, p2)) => Ok(
                    (
                        SpecAttribute::RuntimeVisibleParameterAnnotations { parameter_annotations },
                        p2,
                    ),
                ),
            },
        },
        AttributeTag::RuntimeInvisibleParameterAnnotations => match spec_read_u8(data, pos) {
            Err(e) => Err(e),
            Ok((num_params, p)) => match spec_parse_parameter_annotation_lists(
                data,
                p,
                Seq::empty(),
                num_params as int,
                depth,
            ) {
                Err(e) => Err(e),
                Ok((parameter_annotations, p2)) => Ok(
                    (
                        SpecAttribute::RuntimeInvisibleParameterAnnotations {
                            parameter_annotations,
                        },
                        p2,
                    ),
                ),
            },
        },
        AttributeTag::AnnotationDefault => match spec_parse_element_value(data, pos, depth) {
            Err(e) => Err(e),
            Ok((default_value, p)) => Ok((SpecAttribute::AnnotationDefault { default_value }, p)),
        },
        AttributeTag::BootstrapMethods => match spec_read_u16(data, pos) {
            Err(e) => Err(e),
            Ok((count, p)) => if count * 4 > data.len() - p {
                Err(
                    SpecDecodeError {
                        kind: DecodeErrorKind::CollectionLengthExceedsRemainingInput,
                        offset: p,
                    },
                )
            } else {
                match spec_parse_bootstrap_method_list(data, p, Seq::empty(), count as int) {
                    Err(e) => Err(e),
                    Ok((bootstrap_methods, p2)) => Ok(
                        (SpecAttribute::BootstrapMethods { bootstrap_methods }, p2),
                    ),
                }
            },
        },
        AttributeTag::Unknown => match spec_read_bytes(data, pos, length as int) {
            Err(e) => Err(e),
            Ok((info, p)) => Ok(
                (SpecAttribute::Opaque { attribute_name_index: name_index, info }, p),
            ),
        },
        }
    }
}

/// Parsing one attribute: a name index resolved against the constant
/// table, a declared length, and the body grammar the name selects. A
/// name index that does not lead to a Utf8 entry fails with
/// [`DecodeErrorKind::InvalidConstantPoolIndex`] at the header's offset;
/// a body that consumed other than the declared length fails with
/// [`DecodeErrorKind::AttributeLengthMismatch`] where the body ended.
pub open spec fn spec_parse_attribute(
    data: Seq<u8>,
    pos: int,
    table: Seq<Option<SpecConstantPoolType>>,
    depth: int,
) -> Result<(SpecAttribute, int), SpecDecodeError>
    decreases depth, 2int, 0int,
{
    if depth <= 0 {
        Err(SpecDecodeError { kind: DecodeErrorKind::RecursionLimitExceeded, offset: pos })
    } else {
        match spec_read_u16(data, pos) {
            Err(e) => Err(e),
            Ok((name_index, p)) => match spec_read_u32(data, p) {
                Err(e) => Err(e),
                Ok((length, p2)) => match spec_get_utf8(table, name_index as int) {
                    None => Err(
                        SpecDecodeError {
                            kind: DecodeErrorKind::InvalidConstantPoolIndex,
                            offset: pos,
                        },
                    ),
                    Some(name) => match spec_parse_attribute_body(
                        data,
                        p2,
                        table,
                        AttributeTag::spec_from_name(name),
                        name_index,
                        length,
                        depth,
                    ) {
                        Err(e) => Err(e),
                        Ok((attr, p_end)) => if p_end - p2 == length {
                            Ok((attr, p_end))
                        } else {
                            Err(
                                SpecDecodeError {
                                    kind: DecodeErrorKind::AttributeLengthMismatch,
                                    offset: p_end,
                                },
                            )
                        },
                    },
                },
            },
        }
    }
}

/// Parsing `n` attributes in a row, accumulating onto `acc`.
pub open spec fn spec_parse_attribute_list(
    data: Seq<u8>,
    pos: int,
    table: Seq<Option<SpecConstantPoolType>>,
    acc: Seq<SpecAttribute>,
    n: int,
    depth: int,
) -> Result<(Seq<SpecAttribute>, int), SpecDecodeError>
    decreases depth, 3int, n - acc.len(),
{
    if acc.len() >= n {
        Ok((acc, pos))
    } else {
        match spec_parse_attribute(data, pos, table, depth) {
            Err(e) => Err(e),
            Ok((a, p)) => spec_parse_attribute_list(data, p, table, acc.push(a), n, depth),
        }
    }
}

/// Parsing an attribute list with its leading count.
pub open spec fn spec_parse_attributes(
    data: Seq<u8>,
    pos: int,
    table: Seq<Option<SpecConstantPoolType>>,
    depth: int,
) -> Result<(Seq<SpecAttribute>, int), SpecDecodeError>
    decreases depth, 4int, 0int,
{
    match spec_read_u16(data, pos) {
        Err(e) => Err(e),
        Ok((count, p)) => if count * 6 > data.len() - p {
            Err(
                SpecDecodeError {
                    kind: DecodeErrorKind::CollectionLengthExceedsRemainingInput,
                    offset: p,
                },
            )
        } else {
            spec_parse_attribute_list(data, p, table, Seq::empty(), count as int, depth)
        },
    }
}

/// Decode one attribute: header, name resolution against the constant
/// table, the body grammar the name selects, and the exact length check.
pub fn attribute(cur: &mut Cursor, constant_pool: &ConstantTable, depth: u32) -> (r: Result<
    Attribute,
    DecodeError,
>)
    requires
        old(cur).wf(),
    ensures
        final(cur).data@ == old(cur).data@,
        final(cur).wf(),
        old(cur).pos <= final(cur).pos,
        match r {
            Ok(a) => {
                &&& spec_parse_attribute(
                    old(cur).data@,
                    old(cur).pos as int,
                    constant_pool@,
                    depth as int,
                ) matches Ok(s)
                &&& s == (spec_attribute_view(a), final(cur).pos as int)
            },
            Err(e) => {
                &&& spec_parse_attribute(
                    old(cur).data@,
                    old(cur).pos as int,
                    constant_pool@,
                    depth as int,
                ) matches Err(se)
                &&& se == e@
            },
        },
    decreases depth as int, 2int, 0int,
{
    if depth == 0 {
        return Err(
            DecodeError { kind: DecodeErrorKind::RecursionLimitExceeded, offset: cur.pos },
        );
    }
    let header_offset = cur.pos;
    let attr_name_index = cur.read_u16()?;
    let attribute_length = cur.read_u32()?;
    let body_start = cur.pos;
    let name = match get_utf8(constant_pool, attr_name_index as usize) {
        Some(b) => b,
        None => {
            return Err(
                DecodeError {
                    kind: DecodeErrorKind::InvalidConstantPoolIndex,
                    offset: header_offset,
                },
            );
        },
    };
    let tag = AttributeTag::from_name(name.as_slice());
    let attr = attribute_body(cur, constant_pool, tag, attr_name_index, attribute_length, depth)?;
    let consumed = cur.pos - body_start;
    if consumed != attribute_length as usize {
        return Err(DecodeError { kind: DecodeErrorKind::AttributeLengthMismatch, offset: cur.pos });
    }
    Ok(attr)
}

/// Decode one attribute body of the fixed-layout kinds: a few direct
/// reads, an empty body, or a verbatim blob.
fn attribute_body_fixed(
    cur: &mut Cursor,
    constant_pool: &ConstantTable,
    tag: AttributeTag,
    attr_name_index: u16,
    attribute_length: u32,
    depth: u32,
) -> (r: Result<Attribute, DecodeError>)
    requires
        old(cur).wf(),
        depth >= 1,
        tag is ConstantValue || tag is EnclosingMethod || tag is Synthetic || tag is Signature
            || tag is SourceFile || tag is Deprecated || tag is SourceDebugExtension
            || tag is Unknown,
    ensures
        final(cur).data@ == old(cur).data@,
        final(cur).wf(),
        old(cur).pos <= final(cur).pos,
        match r {
            Ok(a) => {
                &&& spec_parse_attribute_body(
                    old(cur).data@,
                    old(cur).pos as int,
                    constant_pool@,
                    tag,
                    attr_name_index,
                    attribute_length,
                    depth as int,
                ) matches Ok(s)
                &&& s == (spec_attribute_view(a), final(cur).pos as int)
            },
            Err(e) => {
                &&& spec_parse_attribute_body(
                    old(cur).data@,
                    old(cur).pos as int,
                    constant_pool@,
                    tag,
                    attr_name_index,
                    attribute_length,
                    depth as int,
                ) matches Err(se)
                &&& se == e@
            },
        },
{
    match tag {
        AttributeTag::ConstantValue => {
            let constant_value_index = cur.read_u16()?;
            Ok(Attribute::ConstantValue { constant_value_index })
        },
        AttributeTag::EnclosingMethod => {
            let class_index = cur.read_u16()?;
            let method_index = cur.read_u16()?;
            Ok(Attribute::EnclosingMethod { class_index, method_index })
        },
        AttributeTag::Synthetic => Ok(Attribute::Synthetic),
        AttributeTag::Signature => {
            let signature_index = cur.read_u16()?;
            Ok(Attribute::Signature { signature_index })
        },
        AttributeTag::SourceFile => {
            let source_file_index = cur.read_u16()?;
            Ok(Attribute::SourceFile { source_file_index })
        },
        AttributeTag::Deprecated => Ok(Attribute::Deprecated),
        AttributeTag::SourceDebugExtension => {
            let debug_extension = cur.take(attribute_length as usize)?;
            Ok(Attribute::SourceDebugExtension { debug_extension })
        },
        _ => {
            let info = cur.take(attribute_length as usize)?;
            Ok(Attribute::Opaque { attribute_name_index: attr_name_index, info })
        },
    }
}

/// Decode one attribute body of the counted-row kinds: a count, a size
/// guard, then fixed-width rows.
fn attribute_body_tables(
    cur: &mut Cursor,
    constant_pool: &ConstantTable,
    tag: AttributeTag,
    attr_name_index: u16,
    attribute_length: u32,
    depth: u32,
) -> (r: Result<Attribute, DecodeError>)
    requires
        old(cur).wf(),
        depth >= 1,
        tag is Exceptions || tag is InnerClasses || tag is LineNumberTable
            || tag is LocalVariableTable || tag is LocalVariableTypeTable
            || tag is BootstrapMethods || tag is StackMapTable,
    ensures
        final(cur).data@ == old(cur).data@,
        final(cur).wf(),
        old(cur).pos <= final(cur).pos,
        match r {
            Ok(a) => {
                &&& spec_parse_attribute_body(
                    old(cur).data@,
                    old(cur).pos as int,
                    constant_pool@,
                    tag,
                    attr_name_index,
                    attribute_length,
                    depth as int,
                ) matches Ok(s)
                &&& s == (spec_attribute_view(a), final(cur).pos as int)
            },
            Err(e) => {
                &&& spec_parse_attribute_body(
                    old(cur).data@,
                    old(cur).pos as int,
                    constant_pool@,
                    tag,
                    attr_name_index,
                    attribute_length,
                    depth as int,
                ) matches Err(se)
                &&& se == e@
            },
        },
{
    match tag {
        AttributeTag::StackMapTable => {
            let entries = stack_map_table(cur)?;
            Ok(Attribute::StackMapTable { entries })
        },
        AttributeTag::Exceptions => {
            let count = cur.read_u16()?;
            if (count as usize) * 2 > cur.remaining() {
                return Err(
                    DecodeError {
                        kind: DecodeErrorKind::CollectionLengthExceedsRemainingInput,
                        offset: cur.pos,
                    },
                );
            }
            let exception_index_table = u16_list(cur, count)?;
            Ok(Attribute::Exceptions { number_of_exceptions: count, exception_index_table })
        },
        AttributeTag::InnerClasses => {
            let count = cur.read_u16()?;
            if (count as usize) * 8 > cur.remaining() {
                return Err(
                    DecodeError {
                        kind: DecodeErrorKind::CollectionLengthExceedsRemainingInput,
                        offset: cur.pos,
                    },
                );
            }
            let classes = inner_class_list(cur, count)?;
            Ok(Attribute::InnerClasses { classes })
        },
        AttributeTag::LineNumberTable => {
            let count = cur.read_u16()?;
            if (count as usize) * 4 > cur.remaining() {
                return Err(
                    DecodeError {
                        kind: DecodeErrorKind::CollectionLengthExceedsRemainingInput,
                        offset: cur.pos,
                    },
                );
            }
            let line_number_table = line_number_list(cur, count)?;
            Ok(Attribute::LineNumberTable { line_number_table })
        },
        AttributeTag::LocalVariableTable => {
            let count = cur.read_u16()?;
            if (count as usize) * 10 > cur.remaining() {
                return Err(
                    DecodeError {
                        kind: DecodeErrorKind::CollectionLengthExceedsRemainingInput,
                        offset: cur.pos,
                    },
                );
            }
            let local_variable_table = local_variable_list(cur, count)?;
            Ok(Attribute::LocalVariableTable { local_variable_table })
        },
        AttributeTag::LocalVariableTypeTable => {
            let count = cur.read_u16()?;
            if (count as usize) * 10 > cur.remaining() {
                return Err(
                    DecodeError {
                        kind: DecodeErrorKind::CollectionLengthExceedsRemainingInput,
                        offset: cur.pos,
                    },
                );
            }
            let local_variable_type_table = local_variable_list(cur, count)?;
            Ok(Attribute::LocalVariableTypeTable { local_variable_type_table })
        },
        _ => {
            let count = cur.read_u16()?;
            if (count as usize) * 4 > cur.remaining() {
                return Err(
                    DecodeError {
                        kind: DecodeErrorKind::CollectionLengthExceedsRemainingInput,
                        offset: cur.pos,
                    },
                );
            }
            let bootstrap_methods = bootstrap_method_list(cur, count)?;
            Ok(Attribute::BootstrapMethods { bootstrap_methods })
        },
    }
}

/// Decode one attribute body of the annotation-bearing kinds.
fn attribute_body_annotations(
    cur: &mut Cursor,
    constant_pool: &ConstantTable,
    tag: AttributeTag,
    attr_name_index: u16,
    attribute_length: u32,
    depth: u32,
) -> (r: Result<Attribute, DecodeError>)
    requires
        old(cur).wf(),
        depth >= 1,
        tag is RuntimeVisibleAnnotations || tag is RuntimeInvisibleAnnotations
            || tag is RuntimeVisibleParameterAnnotations
            || tag is RuntimeInvisibleParameterAnnotations || tag is AnnotationDefault,
    ensures
        final(cur).data@ == old(cur).data@,
        final(cur).wf(),
        old(cur).pos <= final(cur).pos,
        match r {
            Ok(a) => {
                &&& spec_parse_attribute_body(
                    old(cur).data@,
                    old(cur).pos as int,
                    constant_pool@,
                    tag,
                    attr_name_index,
                    attribute_length,
                    depth as int,
                ) matches Ok(s)
                &&& s == (spec_attribute_view(a), final(cur).pos as int)
            },
            Err(e) => {
                &&& spec_parse_attribute_body(
                    old(cur).data@,
                    old(cur).pos as int,
                    constant_pool@,
                    tag,
                    attr_name_index,
                    attribute_length,
                    depth as int,
                ) matches Err(se)
                &&& se == e@
            },
        },
{
    match tag {
        AttributeTag::RuntimeVisibleAnnotations => {
            let count = cur.read_u16()?;
            if (count as usize) * 4 > cur.remaining() {
                return Err(
                    DecodeError {
                        kind: DecodeErrorKind::CollectionLengthExceedsRemainingInput,
                        offset: cur.pos,
                    },
                );
            }
            let annotations = annotation_list(cur, count, depth)?;
            Ok(Attribute::RuntimeVisibleAnnotations { annotations })
        },
        AttributeTag::RuntimeInvisibleAnnotations => {
            let count = cur.read_u16()?;
            if (count as usize) * 4 > cur.remaining() {
                return Err(
                    DecodeError {
                        kind: DecodeErrorKind::CollectionLengthExceedsRemainingInput,
                        offset: cur.pos,
                    },
                );
            }
            let annotations = annotation_list(cur, count, depth)?;
            Ok(Attribute::RuntimeInvisibleAnnotations { annotations })
        },
        AttributeTag::RuntimeVisibleParameterAnnotations => {
            let num_params = cur.read_u8()?;
            let parameter_annotations = parameter_annotation_lists(cur, num_params, depth)?;
            Ok(Attribute::RuntimeVisibleParameterAnnotations { parameter_annotations })
        },
        AttributeTag::RuntimeInvisibleParameterAnnotations => {
            let num_params = cur.read_u8()?;
            let parameter_annotations = parameter_annotation_lists(cur, num_params, depth)?;
            Ok(Attribute::RuntimeInvisibleParameterAnnotations { parameter_annotations })
        },
        _ => {
            let default_value = element_value(cur, depth)?;
            Ok(Attribute::AnnotationDefault { default_value })
        },
    }
}

/// Decode one attribute body by its resolved tag.
fn attribute_body(
    cur: &mut Cursor,
    constant_pool: &ConstantTable,
    tag: AttributeTag,
    attr_name_index: u16,
    attribute_length: u32,
    depth: u32,
) -> (r: Result<Attribute, DecodeError>)
    requires
        old(cur).wf(),
    ensures
        final(cur).data@ == old(cur).data@,
        final(cur).wf(),
        old(cur).pos <= final(cur).pos,
        match r {
            Ok(a) => {
                &&& spec_parse_attribute_body(
                    old(cur).data@,
                    old(cur).pos as int,
                    constant_pool@,
                    tag,
                    attr_name_index,
                    attribute_length,
                    depth as int,
                ) matches Ok(s)
                &&& s == (spec_attribute_view(a), final(cur).pos as int)
            },
            Err(e) => {
                &&& spec_parse_attribute_body(
                    old(cur).data@,
                    old(cur).pos as int,
                    constant_pool@,
                    tag,
                    attr_name_index,
                    attribute_length,
                    depth as int,
                ) matches Err(se)
                &&& se == e@
            },
        },
    decreases depth as int, 1int, 0int,
{
    if depth == 0 {
        return Err(
            DecodeError { kind: DecodeErrorKind::RecursionLimitExceeded, offset: cur.pos },
        );
    }
    match tag {
        AttributeTag::Code => {
            let max_stack = cur.read_u16()?;
            let max_locals = cur.read_u16()?;
            let code_length = cur.read_u32()?;
            let code = cur.take(code_length as usize)?;
            let exception_table = exception_table(cur)?;
            let attributes = attributes(cur, constant_pool, depth - 1)?;
            Ok(Attribute::Code { max_stack, max_locals, code, exception_table, attributes })
        },
        AttributeTag::ConstantValue => attribute_body_fixed(
            cur,
            constant_pool,
            tag,
            attr_name_index,
            attribute_length,
            depth,
        ),
        AttributeTag::EnclosingMethod => attribute_body_fixed(
            cur,
            constant_pool,
            tag,
            attr_name_index,
            attribute_length,
            depth,
        ),
        AttributeTag::Synthetic => attribute_body_fixed(
            cur,
            constant_pool,
            tag,
            attr_name_index,
            attribute_length,
            depth,
        ),
        AttributeTag::Signature => attribute_body_fixed(
            cur,
            constant_pool,
            tag,
            attr_name_index,
            attribute_length,
            depth,
        ),
        AttributeTag::SourceFile => attribute_body_fixed(
            cur,
            constant_pool,
            tag,
            attr_name_index,
            attribute_length,
            depth,
        ),
        AttributeTag::Deprecated => attribute_body_fixed(
            cur,
            constant_pool,
            tag,
            attr_name_index,
            attribute_length,
            depth,
        ),
        AttributeTag::SourceDebugExtension => attribute_body_fixed(
            cur,
            constant_pool,
            tag,
            attr_name_index,
            attribute_length,
            depth,
        ),
        AttributeTag::Unknown => attribute_body_fixed(
            cur,
            constant_pool,
            tag,
            attr_name_index,
            attribute_length,
            depth,
        ),
        AttributeTag::StackMapTable => attribute_body_tables(
            cur,
            constant_pool,
            tag,
            attr_name_index,
            attribute_length,
            depth,
        ),
        AttributeTag::Exceptions => attribute_body_tables(
            cur,
            constant_pool,
            tag,
            attr_name_index,
            attribute_length,
            depth,
        ),
        AttributeTag::InnerClasses => attribute_body_tables(
            cur,
            constant_pool,
            tag,
            attr_name_index,
            attribute_length,
            depth,
        ),
        AttributeTag::LineNumberTable => attribute_body_tables(
            cur,
            constant_pool,
            tag,
            attr_name_index,
            attribute_length,
            depth,
        ),
        AttributeTag::LocalVariableTable => attribute_body_tables(
            cur,
            constant_pool,
            tag,
            attr_name_index,
            attribute_length,
            depth,
        ),
        AttributeTag::LocalVariableTypeTable => attribute_body_tables(
            cur,
            constant_pool,
            tag,
            attr_name_index,
            attribute_length,
            depth,
        ),
        AttributeTag::BootstrapMethods => attribute_body_tables(
            cur,
            constant_pool,
            tag,
            attr_name_index,
            attribute_length,
            depth,
        ),
        AttributeTag::RuntimeVisibleAnnotations => attribute_body_annotations(
            cur,
            constant_pool,
            tag,
            attr_name_index,
            attribute_length,
            depth,
        ),
        AttributeTag::RuntimeInvisibleAnnotations => attribute_body_annotations(
            cur,
            constant_pool,
            tag,
            attr_name_index,
            attribute_length,
            depth,
        ),
        AttributeTag::RuntimeVisibleParameterAnnotations => attribute_body_annotations(
            cur,
            constant_pool,
            tag,
            attr_name_index,
            attribute_length,
            depth,
        ),
        AttributeTag::RuntimeInvisibleParameterAnnotations => attribute_body_annotations(
            cur,
            constant_pool,
            tag,
            attr_name_index,
            attribute_length,
            depth,
        ),
        AttributeTag::AnnotationDefault => attribute_body_annotations(
            cur,
            constant_pool,
            tag,
            attr_name_index,
            attribute_length,
            depth,
        ),
    }
}

/// Decode an attribute list with its leading count.
#[verifier::loop_isolation(false)]
pub fn attributes(cur: &mut Cursor, constant_pool: &ConstantTable, depth: u32) -> (r: Result<
    Vec<Attribute>,
    DecodeError,
>)
    requires
        old(cur).wf(),
    ensures
        final(cur).data@ == old(cur).data@,
        final(cur).wf(),
        old(cur).pos <= final(cur).pos,
        match r {
            Ok(v) => {
                &&& spec_parse_attributes(
                    old(cur).data@,
                    old(cur).pos as int,
                    constant_pool@,
                    depth as int,
                ) matches Ok(s)
                &&& s == (spec_attributes_view(v@), final(cur).pos as int)
            },
            Err(e) => {
                &&& spec_parse_attributes(
                    old(cur).data@,
                    old(cur).pos as int,
                    constant_pool@,
                    depth as int,
                ) matches Err(se)
                &&& se == e@
            },
        },
    decreases depth as int, 4int, 0int,
{
    let ghost data = old(cur).data@;
    let count = cur.read_u16()?;
    if (count as usize) * 6 > cur.remaining() {
        return Err(
            DecodeError {
                kind: DecodeErrorKind::CollectionLengthExceedsRemainingInput,
                offset: cur.pos,
            },
        );
    }
    let ghost p_start = cur.pos as int;
    let mut out: Vec<Attribute> = Vec::new();
    while out.len() < count as usize
        invariant
            cur.wf(),
            cur.data@ == data,
            old(cur).pos <= cur.pos,
            out@.len() <= count as usize,
            spec_attributes_view(out@).len() == out@.len(),
            spec_parse_attribute_list(
                data,
                cur.pos as int,
                constant_pool@,
                spec_attributes_view(out@),
                count as int,
                depth as int,
            ) == spec_parse_attribute_list(
                data,
                p_start,
                constant_pool@,
                Seq::empty(),
                count as int,
                depth as int,
            ),
        decreases count as int - out@.len(),
    {
        let a = attribute(cur, constant_pool, depth)?;
        proof {
            lemma_attributes_view_push(out@, a);
        }
        out.push(a);
    }
    Ok(out)
}

/// An attribute with an unrecognized name and declared length `L`,
/// followed by at least `L` bytes, decodes to an `Opaque` attribute
/// holding those `L` bytes verbatim, and consumes exactly its 6 header
/// bytes plus `L`: unknown names are skippable, never an error.
pub proof fn lemma_opaque_attribute(
    data: Seq<u8>,
    pos: int,
    table: Seq<Option<SpecConstantPoolType>>,
    depth: int,
)
    requires
        depth >= 1,
        0 <= pos,
        pos + 6 <= data.len(),
        spec_get_utf8(table, crate::cursor::spec_be_u16(data, pos) as int) matches Some(name)
            && AttributeTag::spec_from_name(name) is Unknown,
        pos + 6 + crate::cursor::spec_be_u32(data, pos + 2) <= data.len(),
    ensures
        spec_parse_attribute(data, pos, table, depth) matches Ok(s) ==> {
            let length = crate::cursor::spec_be_u32(data, pos + 2) as int;
            &&& s.1 == pos + 6 + length
            &&& s.0 matches SpecAttribute::Opaque { attribute_name_index, info }
            &&& attribute_name_index == crate::cursor::spec_be_u16(data, pos)
            &&& info == data.subrange(pos + 6, pos + 6 + length)
        },
        spec_parse_attribute(data, pos, table, depth) is Ok,
{
}

/// Parsing a 16-bit value list from a prefix of the buffer. Each value
/// still to read accounts for 2 consumed bytes.
pub proof fn lemma_prefix_u16_list(data: Seq<u8>, k: int, pos: int, acc: Seq<u16>, n: int)
    requires
        0 <= pos <= k <= data.len(),
    ensures
        spec_parse_u16_list(data, pos, acc, n) matches Ok(s) ==> s.1 <= data.len() && s.1 >= pos + (
        if acc.len() < n {
            2 * (n - acc.len())
        } else {
            0
        }),
        spec_parse_u16_list(data, pos, acc, n) matches Ok(s) ==> (if s.1 <= k {
            spec_parse_u16_list(data.take(k), pos, acc, n) == spec_parse_u16_list(data, pos, acc, n)
        } else {
            spec_parse_u16_list(data.take(k), pos, acc, n) matches Err(e)
                && crate::error::spec_is_exhaustion_error(e)
        }),
    decreases n - acc.len(),
{
    if acc.len() >= n {
    } else {
        crate::cursor::lemma_prefix_read_u16(data, k, pos);
        match spec_read_u16(data, pos) {
            Err(_) => {},
            Ok((v, p)) => {
                if p <= k {
                    lemma_prefix_u16_list(data, k, p, acc.push(v), n);
                } else {
                    lemma_prefix_u16_list(data, data.len() as int, p, acc.push(v), n);
                }
            },
        }
    }
}

/// Parsing an exception table row from a prefix of the buffer.
proof fn lemma_prefix_exception_handler(data: Seq<u8>, k: int, pos: int)
    requires
        0 <= pos <= k <= data.len(),
    ensures
        spec_parse_exception_handler(data, pos) matches Ok(s) ==> s.1 == pos + 8 <= data.len(),
        spec_parse_exception_handler(data, pos) matches Ok(s) ==> (if s.1 <= k {
            spec_parse_exception_handler(data.take(k), pos) == spec_parse_exception_handler(
                data,
                pos,
            )
        } else {
            spec_parse_exception_handler(data.take(k), pos) matches Err(e)
                && crate::error::spec_is_exhaustion_error(e)
        }),
{
}

/// Parsing exception table rows from a prefix of the buffer.
proof fn lemma_prefix_exception_handler_list(
    data: Seq<u8>,
    k: int,
    pos: int,
    acc: Seq<ExceptionHandler>,
    n: int,
)
    requires
        0 <= pos <= k <= data.len(),
    ensures
        spec_parse_exception_handler_list(data, pos, acc, n) matches Ok(s) ==> s.1 <= data.len()
            && s.1 >= pos + (if acc.len() < n {
            8 * (n - acc.len())
        } else {
            0
        }),
        spec_parse_exception_handler_list(data, pos, acc, n) matches Ok(s) ==> (if s.1 <= k {
            spec_parse_exception_handler_list(data.take(k), pos, acc, n)
                == spec_parse_exception_handler_list(data, pos, acc, n)
        } else {
            spec_parse_exception_handler_list(data.take(k), pos, acc, n) matches Err(e)
                && crate::error::spec_is_exhaustion_error(e)
        }),
    decreases n - acc.len(),
{
    if acc.len() >= n {
    } else {
        lemma_prefix_exception_handler(data, k, pos);
        match spec_parse_exception_handler(data, pos) {
            Err(_) => {},
            Ok((v, p)) => {
                if p <= k {
                    lemma_prefix_exception_handler_list(data, k, p, acc.push(v), n);
                } else {
                    lemma_prefix_exception_handler_list(data, data.len() as int, p, acc.push(v), n);
                }
            },
        }
    }
}

/// Parsing a whole exception table from a prefix of the buffer.
proof fn lemma_prefix_exception_table(data: Seq<u8>, k: int, pos: int)
    requires
        0 <= pos <= k <= data.len(),
    ensures
        spec_parse_exception_table(data, pos) matches Ok(s) ==> pos + 2 <= s.1 <= data.len(),
        spec_parse_exception_table(data, pos) matches Ok(s) ==> (if s.1 <= k {
            spec_parse_exception_table(data.take(k), pos) == spec_parse_exception_table(data, pos)
        } else {
            spec_parse_exception_table(data.take(k), pos) matches Err(e)
                && crate::error::spec_is_exhaustion_error(e)
        }),
{
    crate::cursor::lemma_prefix_read_u16(data, k, pos);
    match spec_read_u16(data, pos) {
        Err(_) => {},
        Ok((count, p)) => {
            if count * 8 > data.len() - p {
            } else {
                lemma_prefix_exception_handler_list(
                    data,
                    data.len() as int,
                    p,
                    Seq::empty(),
                    count as int,
                );
                if p <= k {
                    lemma_prefix_exception_handler_list(data, k, p, Seq::empty(), count as int);
                }
            }
        },
    }
}

/// Parsing an `InnerClasses` row from a prefix of the buffer.
proof fn lemma_prefix_inner_class(data: Seq<u8>, k: int, pos: int)
    requires
        0 <= pos <= k <= data.len(),
    ensures
        spec_parse_inner_class(data, pos) matches Ok(s) ==> s.1 == pos + 8 <= data.len(),
        spec_parse_inner_class(data, pos) matches Ok(s) ==> (if s.1 <= k {
            spec_parse_inner_class(data.take(k), pos) == spec_parse_inner_class(data, pos)
        } else {
            spec_parse_inner_class(data.take(k), pos) matches Err(e)
                && crate::error::spec_is_exhaustion_error(e)
        }),
{
}

/// Parsing `InnerClasses` rows from a prefix of the buffer.
proof fn lemma_prefix_inner_class_list(
    data: Seq<u8>,
    k: int,
    pos: int,
    acc: Seq<InnerClass>,
    n: int,
)
    requires
        0 <= pos <= k <= data.len(),
    ensures
        spec_parse_inner_class_list(data, pos, acc, n) matches Ok(s) ==> s.1 <= data.len() && s.1
            >= pos + (if acc.len() < n {
            8 * (n - acc.len())
        } else {
            0
        }),
        spec_parse_inner_class_list(data, pos, acc, n) matches Ok(s) ==> (if s.1 <= k {
            spec_parse_inner_class_list(data.take(k), pos, acc, n) == spec_parse_inner_class_list(
                data,
                pos,
                acc,
                n,
            )
        } else {
            spec_parse_inner_class_list(data.take(k), pos, acc, n) matches Err(e)
                && crate::error::spec_is_exhaustion_error(e)
        }),
    decreases n - acc.len(),
{
    if acc.len() >= n {
    } else {
        lemma_prefix_inner_class(data, k, pos);
        match spec_parse_inner_class(data, pos) {
            Err(_) => {},
            Ok((v, p)) => {
                if p <= k {
                    lemma_prefix_inner_class_list(data, k, p, acc.push(v), n);
                } else {
                    lemma_prefix_inner_class_list(data, data.len() as int, p, acc.push(v), n);
                }
            },
        }
    }
}

/// Parsing a `LineNumberTable` row from a prefix of the buffer.
proof fn lemma_prefix_line_number(data: Seq<u8>, k: int, pos: int)
    requires
        0 <= pos <= k <= data.len(),
    ensures
        spec_parse_line_number(data, pos) matches Ok(s) ==> s.1 == pos + 4 <= data.len(),
        spec_parse_line_number(data, pos) matches Ok(s) ==> (if s.1 <= k {
            spec_parse_line_number(data.take(k), pos) == spec_parse_line_number(data, pos)
        } else {
            spec_parse_line_number(data.take(k), pos) matches Err(e)
                && crate::error::spec_is_exhaustion_error(e)
        }),
{
}

/// Parsing `LineNumberTable` rows from a prefix of the buffer.
proof fn lemma_prefix_line_number_list(
    data: Seq<u8>,
    k: int,
    pos: int,
    acc: Seq<LineNumber>,
    n: int,
)
    requires
        0 <= pos <= k <= data.len(),
    ensures
        spec_parse_line_number_list(data, pos, acc, n) matches Ok(s) ==> s.1 <= data.len() && s.1
            >= pos + (if acc.len() < n {
            4 * (n - acc.len())
        } else {
            0
        }),
        spec_parse_line_number_list(data, pos, acc, n) matches Ok(s) ==> (if s.1 <= k {
            spec_parse_line_number_list(data.take(k), pos, acc, n) == spec_parse_line_number_list(
                data,
                pos,
                acc,
                n,
            )
        } else {
            spec_parse_line_number_list(data.take(k), pos, acc, n) matches Err(e)
                && crate::error::spec_is_exhaustion_error(e)
        }),
    decreases n - acc.len(),
{
    if acc.len() >= n {
    } else {
        lemma_prefix_line_number(data, k, pos);
        match spec_parse_line_number(data, pos) {
            Err(_) => {},
            Ok((v, p)) => {
                if p <= k {
                    lemma_prefix_line_number_list(data, k, p, acc.push(v), n);
                } else {
                    lemma_prefix_line_number_list(data, data.len() as int, p, acc.push(v), n);
                }
            },
        }
    }
}

/// Parsing a local variable row from a prefix of the buffer.
proof fn lemma_prefix_local_variable(data: Seq<u8>, k: int, pos: int)
    requires
        0 <= pos <= k <= data.len(),
    ensures
        spec_parse_local_variable(data, pos) matches Ok(s) ==> s.1 == pos + 10 <= data.len(),
        spec_parse_local_variable(data, pos) matches Ok(s) ==> (if s.1 <= k {
            spec_parse_local_variable(data.take(k), pos) == spec_parse_local_variable(data, pos)
        } else {
            spec_parse_local_variable(data.take(k), pos) matches Err(e)
                && crate::error::spec_is_exhaustion_error(e)
        }),
{
}

/// Parsing local variable rows from a prefix of the buffer.
proof fn lemma_prefix_local_variable_list(
    data: Seq<u8>,
    k: int,
    pos: int,
    acc: Seq<LocalVariable>,
    n: int,
)
    requires
        0 <= pos <= k <= data.len(),
    ensures
        spec_parse_local_variable_list(data, pos, acc, n) matches Ok(s) ==> s.1 <= data.len()
            && s.1 >= pos + (if acc.len() < n {
            10 * (n - acc.len())
        } else {
            0
        }),
        spec_parse_local_variable_list(data, pos, acc, n) matches Ok(s) ==> (if s.1 <= k {
            spec_parse_local_variable_list(data.take(k), pos, acc, n)
                == spec_parse_local_variable_list(data, pos, acc, n)
        } else {
            spec_parse_local_variable_list(data.take(k), pos, acc, n) matches Err(e)
                && crate::error::spec_is_exhaustion_error(e)
        }),
    decreases n - acc.len(),
{
    if acc.len() >= n {
    } else {
        lemma_prefix_local_variable(data, k, pos);
        match spec_parse_local_variable(data, pos) {
            Err(_) => {},
            Ok((v, p)) => {
                if p <= k {
                    lemma_prefix_local_variable_list(data, k, p, acc.push(v), n);
                } else {
                    lemma_prefix_local_variable_list(data, data.len() as int, p, acc.push(v), n);
                }
            },
        }
    }
}

/// Parsing one bootstrap method row from a prefix of the buffer.
proof fn lemma_prefix_bootstrap_method(data: Seq<u8>, k: int, pos: int)
    requires
        0 <= pos <= k <= data.len(),
    ensures
        spec_parse_bootstrap_method(data, pos) matches Ok(s) ==> pos + 4 <= s.1 <= data.len(),
        spec_parse_bootstrap_method(data, pos) matches Ok(s) ==> (if s.1 <= k {
            spec_parse_bootstrap_method(data.take(k), pos) == spec_parse_bootstrap_method(
                data,
                pos,
            )
        } else {
            spec_parse_bootstrap_method(data.take(k), pos) matches Err(e)
                && crate::error::spec_is_exhaustion_error(e)
        }),
{
    crate::cursor::lemma_prefix_read_u16(data, k, pos);
    match spec_read_u16(data, pos) {
        Err(_) => {},
        Ok((_, p)) => {
            if p <= k {
                crate::cursor::lemma_prefix_read_u16(data, k, p);
            } else {
                crate::cursor::lemma_prefix_read_u16(data, data.len() as int, p);
            }
            match spec_read_u16(data, p) {
                Err(_) => {},
                Ok((num_args, p2)) => {
                    if num_args * 2 > data.len() - p2 {
                    } else {
                        lemma_prefix_u16_list(
                            data,
                            data.len() as int,
                            p2,
                            Seq::empty(),
                            num_args as int,
                        );
                        if p2 <= k {
                            lemma_prefix_u16_list(data, k, p2, Seq::empty(), num_args as int);
                        }
                    }
                },
            }
        },
    }
}

/// Parsing bootstrap method rows from a prefix of the buffer.
proof fn lemma_prefix_bootstrap_method_list(
    data: Seq<u8>,
    k: int,
    pos: int,
    acc: Seq<SpecBootstrapMethod>,
    n: int,
)
    requires
        0 <= pos <= k <= data.len(),
    ensures
        spec_parse_bootstrap_method_list(data, pos, acc, n) matches Ok(s) ==> s.1 <= data.len()
            && s.1 >= pos + (if acc.len() < n {
            4 * (n - acc.len())
        } else {
            0
        }),
        spec_parse_bootstrap_method_list(data, pos, acc, n) matches Ok(s) ==> (if s.1 <= k {
            spec_parse_bootstrap_method_list(data.take(k), pos, acc, n)
                == spec_parse_bootstrap_method_list(data, pos, acc, n)
        } else {
            spec_parse_bootstrap_method_list(data.take(k), pos, acc, n) matches Err(e)
                && crate::error::spec_is_exhaustion_error(e)
        }),
    decreases n - acc.len(),
{
    if acc.len() >= n {
    } else {
        lemma_prefix_bootstrap_method(data, k, pos);
        match spec_parse_bootstrap_method(data, pos) {
            Err(_) => {},
            Ok((v, p)) => {
                if p <= k {
                    lemma_prefix_bootstrap_method_list(data, k, p, acc.push(v), n);
                } else {
                    lemma_prefix_bootstrap_method_list(data, data.len() as int, p, acc.push(v), n);
                }
            },
        }
    }
}

/// Parsing per-parameter annotation lists from a prefix of the buffer.
/// Each parameter still to read accounts for at least its 2 count bytes.
proof fn lemma_prefix_parameter_annotation_lists(
    data: Seq<u8>,
    k: int,
    pos: int,
    acc: Seq<Seq<SpecAnnotation>>,
    n: int,
    depth: int,
)
    requires
        0 <= pos <= k <= data.len(),
    ensures
        spec_parse_parameter_annotation_lists(data, pos, acc, n, depth) matches Ok(s) ==> s.1
            <= data.len() && s.1 >= pos + (if acc.len() < n {
            2 * (n - acc.len())
        } else {
            0
        }),
        spec_parse_parameter_annotation_lists(data, pos, acc, n, depth) matches Ok(s) ==> (if s.1
            <= k {
            spec_parse_parameter_annotation_lists(data.take(k), pos, acc, n, depth)
                == spec_parse_parameter_annotation_lists(data, pos, acc, n, depth)
        } else {
            spec_parse_parameter_annotation_lists(data.take(k), pos, acc, n, depth) matches Err(e)
                && crate::error::spec_is_exhaustion_error(e)
        }),
    decreases n - acc.len(),
{
    if acc.len() >= n {
    } else {
        crate::cursor::lemma_prefix_read_u16(data, k, pos);
        match spec_read_u16(data, pos) {
            Err(_) => {},
            Ok((count, p)) => {
                if count * 4 > data.len() - p {
                } else {
                    crate::annotations::lemma_prefix_annotation_list(
                        data,
                        data.len() as int,
                        p,
                        Seq::empty(),
                        count as int,
                        depth,
                    );
                    if p <= k {
                        crate::annotations::lemma_prefix_annotation_list(
                            data,
                            k,
                            p,
                            Seq::empty(),
                            count as int,
                            depth,
                        );
                    }
                    match spec_parse_annotation_list(data, p, Seq::empty(), count as int, depth) {
                        Err(_) => {},
                        Ok((annotations, p2)) => {
                            if p2 <= k {
                                lemma_prefix_parameter_annotation_lists(
                                    data,
                                    k,
                                    p2,
                                    acc.push(annotations),
                                    n,
                                    depth,
                                );
                            } else {
                                lemma_prefix_parameter_annotation_lists(
                                    data,
                                    data.len() as int,
                                    p2,
                                    acc.push(annotations),
                                    n,
                                    depth,
                                );
                            }
                        },
                    }
                }
            },
        }
    }
}

/// Parsing a fixed-layout attribute body from a prefix of the buffer.
#[verifier::rlimit(100)]
proof fn lemma_prefix_body_fixed(
    data: Seq<u8>,
    k: int,
    pos: int,
    table: Seq<Option<SpecConstantPoolType>>,
    tag: AttributeTag,
    name_index: u16,
    length: u32,
    depth: int,
)
    requires
        0 <= pos <= k <= data.len(),
        tag is ConstantValue || tag is EnclosingMethod || tag is Synthetic || tag is Signature
            || tag is SourceFile || tag is Deprecated || tag is SourceDebugExtension
            || tag is Unknown,
    ensures
        spec_parse_attribute_body(data, pos, table, tag, name_index, length, depth) matches Ok(s)
            ==> pos <= s.1 <= data.len(),
        spec_parse_attribute_body(data, pos, table, tag, name_index, length, depth) matches Ok(s)
            ==> (if s.1 <= k {
            spec_parse_attribute_body(data.take(k), pos, table, tag, name_index, length, depth)
                == spec_parse_attribute_body(data, pos, table, tag, name_index, length, depth)
        } else {
            spec_parse_attribute_body(data.take(k), pos, table, tag, name_index, length, depth)
                matches Err(e) && crate::error::spec_is_exhaustion_error(e)
        }),
{
    crate::cursor::lemma_prefix_read_u16(data, k, pos);
    crate::cursor::lemma_prefix_read_bytes(data, k, pos, length as int);
    if tag is EnclosingMethod {
        match spec_read_u16(data, pos) {
            Err(_) => {},
            Ok((_, p)) => {
                if p <= k {
                    crate::cursor::lemma_prefix_read_u16(data, k, p);
                } else {
                    crate::cursor::lemma_prefix_read_u16(data, data.len() as int, p);
                }
            },
        }
    }
}

/// Parsing a counted-row attribute body from a prefix of the buffer.
#[verifier::rlimit(100)]
proof fn lemma_prefix_body_tables(
    data: Seq<u8>,
    k: int,
    pos: int,
    table: Seq<Option<SpecConstantPoolType>>,
    tag: AttributeTag,
    name_index: u16,
    length: u32,
    depth: int,
)
    requires
        0 <= pos <= k <= data.len(),
        tag is Exceptions || tag is InnerClasses || tag is LineNumberTable
            || tag is LocalVariableTable || tag is LocalVariableTypeTable
            || tag is BootstrapMethods || tag is StackMapTable,
    ensures
        spec_parse_attribute_body(data, pos, table, tag, name_index, length, depth) matches Ok(s)
            ==> pos <= s.1 <= data.len(),
        spec_parse_attribute_body(data, pos, table, tag, name_index, length, depth) matches Ok(s)
            ==> (if s.1 <= k {
            spec_parse_attribute_body(data.take(k), pos, table, tag, name_index, length, depth)
                == spec_parse_attribute_body(data, pos, table, tag, name_index, length, depth)
        } else {
            spec_parse_attribute_body(data.take(k), pos, table, tag, name_index, length, depth)
                matches Err(e) && crate::error::spec_is_exhaustion_error(e)
        }),
{
    if tag is StackMapTable {
        crate::stack_map::lemma_prefix_stack_map_table(data, k, pos);
    } else {
        crate::cursor::lemma_prefix_read_u16(data, k, pos);
        match spec_read_u16(data, pos) {
            Err(_) => {},
            Ok((count, p)) => {
                if tag is Exceptions {
                    if count * 2 <= data.len() - p {
                        lemma_prefix_u16_list(data, data.len() as int, p, Seq::empty(), count as int);
                        if p <= k {
                            lemma_prefix_u16_list(data, k, p, Seq::empty(), count as int);
                        }
                    }
                } else if tag is InnerClasses {
                    if count * 8 <= data.len() - p {
                        lemma_prefix_inner_class_list(
                            data,
                            data.len() as int,
                            p,
                            Seq::empty(),
                            count as int,
                        );
                        if p <= k {
                            lemma_prefix_inner_class_list(data, k, p, Seq::empty(), count as int);
                        }
                    }
                } else if tag is LineNumberTable {
                    if count * 4 <= data.len() - p {
                        lemma_prefix_line_number_list(
                            data,
                            data.len() as int,
                            p,
                            Seq::empty(),
                            count as int,
                        );
                        if p <= k {
                            lemma_prefix_line_number_list(data, k, p, Seq::empty(), count as int);
                        }
                    }
                } else if tag is LocalVariableTable || tag is LocalVariableTypeTable {
                    if count * 10 <= data.len() - p {
                        lemma_prefix_local_variable_list(
                            data,
                            data.len() as int,
                            p,
                            Seq::empty(),
                            count as int,
                        );
                        if p <= k {
                            lemma_prefix_local_variable_list(
                                data,
                                k,
                                p,
                                Seq::empty(),
                                count as int,
                            );
                        }
                    }
                } else {
                    if count * 4 <= data.len() - p {
                        lemma_prefix_bootstrap_method_list(
                            data,
                            data.len() as int,
                            p,
                            Seq::empty(),
                            count as int,
                        );
                        if p <= k {
                            lemma_prefix_bootstrap_method_list(
                                data,
                                k,
                                p,
                                Seq::empty(),
                                count as int,
                            );
                        }
                    }
                }
            },
        }
    }
}

/// Parsing an annotation-bearing attribute body from a prefix of the
/// buffer.
#[verifier::rlimit(100)]
proof fn lemma_prefix_body_annotations(
    data: Seq<u8>,
    k: int,
    pos: int,
    table: Seq<Option<SpecConstantPoolType>>,
    tag: AttributeTag,
    name_index: u16,
    length: u32,
    depth: int,
)
    requires
        0 <= pos <= k <= data.len(),
        tag is RuntimeVisibleAnnotations || tag is RuntimeInvisibleAnnotations
            || tag is RuntimeVisibleParameterAnnotations
            || tag is RuntimeInvisibleParameterAnnotations || tag is AnnotationDefault,
    ensures
        spec_parse_attribute_body(data, pos, table, tag, name_index, length, depth) matches Ok(s)
            ==> pos <= s.1 <= data.len(),
        spec_parse_attribute_body(data, pos, table, tag, name_index, length, depth) matches Ok(s)
            ==> (if s.1 <= k {
            spec_parse_attribute_body(data.take(k), pos, table, tag, name_index, length, depth)
                == spec_parse_attribute_body(data, pos, table, tag, name_index, length, depth)
        } else {
            spec_parse_attribute_body(data.take(k), pos, table, tag, name_index, length, depth)
                matches Err(e) && crate::error::spec_is_exhaustion_error(e)
        }),
{
    if tag is AnnotationDefault {
        crate::annotations::lemma_prefix_element_value(data, k, pos, depth);
    } else if tag is RuntimeVisibleAnnotations || tag is RuntimeInvisibleAnnotations {
        crate::cursor::lemma_prefix_read_u16(data, k, pos);
        match spec_read_u16(data, pos) {
            Err(_) => {},
            Ok((count, p)) => {
                if count * 4 <= data.len() - p {
                    crate::annotations::lemma_prefix_annotation_list(
                        data,
                        data.len() as int,
                        p,
                        Seq::empty(),
                        count as int,
                        depth,
                    );
                    if p <= k {
                        crate::annotations::lemma_prefix_annotation_list(
                            data,
                            k,
                            p,
                            Seq::empty(),
                            count as int,
                            depth,
                        );
                    }
                }
            },
        }
    } else {
        crate::cursor::lemma_prefix_read_u8(data, k, pos);
        match spec_read_u8(data, pos) {
            Err(_) => {},
            Ok((num_params, p)) => {
                lemma_prefix_parameter_annotation_lists(
                    data,
                    data.len() as int,
                    p,
                    Seq::empty(),
                    num_params as int,
                    depth,
                );
                if p <= k {
                    lemma_prefix_parameter_annotation_lists(
                        data,
                        k,
                        p,
                        Seq::empty(),
                        num_params as int,
                        depth,
                    );
                }
            },
        }
    }
}

/// Parsing any attribute body from a prefix of the buffer.
#[verifier::rlimit(100)]
proof fn lemma_prefix_attribute_body(
    data: Seq<u8>,
    k: int,
    pos: int,
    table: Seq<Option<SpecConstantPoolType>>,
    tag: AttributeTag,
    name_index: u16,
    length: u32,
    depth: int,
)
    requires
        0 <= pos <= k <= data.len(),
    ensures
        spec_parse_attribute_body(data, pos, table, tag, name_index, length, depth) matches Ok(s)
            ==> pos <= s.1 <= data.len(),
        spec_parse_attribute_body(data, pos, table, tag, name_index, length, depth) matches Ok(s)
            ==> (if s.1 <= k {
            spec_parse_attribute_body(data.take(k), pos, table, tag, name_index, length, depth)
                == spec_parse_attribute_body(data, pos, table, tag, name_index, length, depth)
        } else {
            spec_parse_attribute_body(data.take(k), pos, table, tag, name_index, length, depth)
                matches Err(e) && crate::error::spec_is_exhaustion_error(e)
        }),
    decreases depth, 1int, 0int,
{
    match tag {
        AttributeTag::Code => {
            if depth <= 0 {
            } else {
                crate::cursor::lemma_prefix_read_u16(data, k, pos);
                match spec_read_u16(data, pos) {
                    Err(_) => {},
                    Ok((_, p)) => {
                        if p <= k {
                            crate::cursor::lemma_prefix_read_u16(data, k, p);
                        } else {
                            crate::cursor::lemma_prefix_read_u16(data, data.len() as int, p);
                        }
                        match spec_read_u16(data, p) {
                            Err(_) => {},
                            Ok((_, p2)) => {
                                if p2 <= k {
                                    crate::cursor::lemma_prefix_read_u32(data, k, p2);
                                } else {
                                    crate::cursor::lemma_prefix_read_u32(data, data.len() as int, p2);
                                }
                                match spec_read_u32(data, p2) {
                                    Err(_) => {},
                                    Ok((code_length, p3)) => {
                                        if p3 <= k {
                                            crate::cursor::lemma_prefix_read_bytes(
                                                data,
                                                k,
                                                p3,
                                                code_length as int,
                                            );
                                        } else {
                                            crate::cursor::lemma_prefix_read_bytes(
                                                data,
                                                data.len() as int,
                                                p3,
                                                code_length as int,
                                            );
                                        }
                                        match spec_read_bytes(data, p3, code_length as int) {
                                            Err(_) => {},
                                            Ok((_, p4)) => {
                                                if p4 <= k {
                                                    lemma_prefix_exception_table(data, k, p4);
                                                } else {
                                                    lemma_prefix_exception_table(
                                                        data,
                                                        data.len() as int,
                                                        p4,
                                                    );
                                                }
                                                match spec_parse_exception_table(data, p4) {
                                                    Err(_) => {},
                                                    Ok((_, p5)) => {
                                                        if p5 <= k {
                                                            lemma_prefix_attributes(
                                                                data,
                                                                k,
                                                                p5,
                                                                table,
                                                                depth - 1,
                                                            );
                                                        } else {
                                                            lemma_prefix_attributes(
                                                                data,
                                                                data.len() as int,
                                                                p5,
                                                                table,
                                                                depth - 1,
                                                            );
                                                        }
                                                    },
                                                }
                                            },
                                        }
                                    },
                                }
                            },
                        }
                    },
                }
            }
        },
        AttributeTag::ConstantValue | AttributeTag::EnclosingMethod | AttributeTag::Synthetic
            | AttributeTag::Signature | AttributeTag::SourceFile | AttributeTag::Deprecated
            | AttributeTag::SourceDebugExtension | AttributeTag::Unknown => {
            lemma_prefix_body_fixed(data, k, pos, table, tag, name_index, length, depth);
        },
        AttributeTag::Exceptions | AttributeTag::InnerClasses | AttributeTag::LineNumberTable
            | AttributeTag::LocalVariableTable | AttributeTag::LocalVariableTypeTable
            | AttributeTag::BootstrapMethods | AttributeTag::StackMapTable => {
            lemma_prefix_body_tables(data, k, pos, table, tag, name_index, length, depth);
        },
        _ => {
            lemma_prefix_body_annotations(data, k, pos, table, tag, name_index, length, depth);
        },
    }
}

/// Parsing one attribute from a prefix of the buffer. An attribute
/// consumes at least its 6 header bytes.
#[verifier::rlimit(100)]
proof fn lemma_prefix_attribute(
    data: Seq<u8>,
    k: int,
    pos: int,
    table: Seq<Option<SpecConstantPoolType>>,
    depth: int,
)
    requires
        0 <= pos <= k <= data.len(),
    ensures
        spec_parse_attribute(data, pos, table, depth) matches Ok(s) ==> pos + 6 <= s.1
            <= data.len(),
        spec_parse_attribute(data, pos, table, depth) matches Ok(s) ==> (if s.1 <= k {
            spec_parse_attribute(data.take(k), pos, table, depth) == spec_parse_attribute(
                data,
                pos,
                table,
                depth,
            )
        } else {
            spec_parse_attribute(data.take(k), pos, table, depth) matches Err(e)
                && crate::error::spec_is_exhaustion_error(e)
        }),
    decreases depth, 2int, 0int,
{
    if depth <= 0 {
    } else {
        crate::cursor::lemma_prefix_read_u16(data, k, pos);
        match spec_read_u16(data, pos) {
            Err(_) => {},
            Ok((name_index, p)) => {
                if p <= k {
                    crate::cursor::lemma_prefix_read_u32(data, k, p);
                } else {
                    crate::cursor::lemma_prefix_read_u32(data, data.len() as int, p);
                }
                match spec_read_u32(data, p) {
                    Err(_) => {},
                    Ok((length, p2)) => {
                        match spec_get_utf8(table, name_index as int) {
                            None => {},
                            Some(name) => {
                                let tag = AttributeTag::spec_from_name(name);
                                if p2 <= k {
                                    lemma_prefix_attribute_body(
                                        data,
                                        k,
                                        p2,
                                        table,
                                        tag,
                                        name_index,
                                        length,
                                        depth,
                                    );
                                } else {
                                    lemma_prefix_attribute_body(
                                        data,
                                        data.len() as int,
                                        p2,
                                        table,
                                        tag,
                                        name_index,
                                        length,
                                        depth,
                                    );
                                }
                            },
                        }
                    },
                }
            },
        }
    }
}

/// Parsing an attribute list from a prefix of the buffer. Each attribute
/// still to read accounts for at least 6 consumed bytes.
proof fn lemma_prefix_attribute_list(
    data: Seq<u8>,
    k: int,
    pos: int,
    table: Seq<Option<SpecConstantPoolType>>,
    acc: Seq<SpecAttribute>,
    n: int,
    depth: int,
)
    requires
        0 <= pos <= k <= data.len(),
    ensures
        spec_parse_attribute_list(data, pos, table, acc, n, depth) matches Ok(s) ==> s.1
            <= data.len() && s.1 >= pos + (if acc.len() < n {
            6 * (n - acc.len())
        } else {
            0
        }),
        spec_parse_attribute_list(data, pos, table, acc, n, depth) matches Ok(s) ==> (if s.1 <= k {
            spec_parse_attribute_list(data.take(k), pos, table, acc, n, depth)
                == spec_parse_attribute_list(data, pos, table, acc, n, depth)
        } else {
            spec_parse_attribute_list(data.take(k), pos, table, acc, n, depth) matches Err(e)
                && crate::error::spec_is_exhaustion_error(e)
        }),
    decreases depth, 3int, n - acc.len(),
{
    if acc.len() >= n {
    } else {
        lemma_prefix_attribute(data, k, pos, table, depth);
        match spec_parse_attribute(data, pos, table, depth) {
            Err(_) => {},
            Ok((a, p)) => {
                if p <= k {
                    lemma_prefix_attribute_list(data, k, p, table, acc.push(a), n, depth);
                } else {
                    lemma_prefix_attribute_list(
                        data,
                        data.len() as int,
                        p,
                        table,
                        acc.push(a),
                        n,
                        depth,
                    );
                }
            },
        }
    }
}

/// Parsing a counted attribute list from a prefix of the buffer.
pub proof fn lemma_prefix_attributes(
    data: Seq<u8>,
    k: int,
    pos: int,
    table: Seq<Option<SpecConstantPoolType>>,
    depth: int,
)
    requires
        0 <= pos <= k <= data.len(),
    ensures
        spec_parse_attributes(data, pos, table, depth) matches Ok(s) ==> pos + 2 <= s.1
            <= data.len(),
        spec_parse_attributes(data, pos, table, depth) matches Ok(s) ==> (if s.1 <= k {
            spec_parse_attributes(data.take(k), pos, table, depth) == spec_parse_attributes(
                data,
                pos,
                table,
                depth,
            )
        } else {
            spec_parse_attributes(data.take(k), pos, table, depth) matches Err(e)
                && crate::error::spec_is_exhaustion_error(e)
        }),
    decreases depth, 4int, 0int,
{
    crate::cursor::lemma_prefix_read_u16(data, k, pos);
    match spec_read_u16(data, pos) {
        Err(_) => {},
        Ok((count, p)) => {
            if count * 6 > data.len() - p {
            } else {
                lemma_prefix_attribute_list(
                    data,
                    data.len() as int,
                    p,
                    table,
                    Seq::empty(),
                    count as int,
                    depth,
                );
                if p <= k {
                    lemma_prefix_attribute_list(data, k, p, table, Seq::empty(), count as int, depth);
                }
            }
        },
    }
}

} // verus!
