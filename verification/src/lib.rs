//! Structural decoder for the class file binary container format.
//!
//! The decoder is a pure function from an immutable byte buffer to a
//! fully typed in-memory tree, or to a terminal error carrying the byte
//! offset at which the problem was detected. All reads go through a
//! forward-only cursor; every decoder is specified against a
//! mathematical parser over the byte sequence, so the decoded tree is
//! pinned down byte for byte.
//!
//! The entry point is [`parser::class_file`]. The constant table it
//! builds is sparse and 1-indexed: a Long or Double entry renders the
//! slot after it unusable, and [`constant_pool::get_utf8`] and
//! [`constant_pool::resolve_class_name`] resolve indices against it.
//! Because input may be adversarial, the two recursive decoders carry a
//! nesting budget, and every declared element count is checked against
//! the remaining input before anything is allocated.

pub mod error;
pub mod cursor;
pub mod constant_pool;
pub mod stack_map;
pub mod annotations;
pub mod attributes;
pub mod parser;

pub use error::{DecodeError, DecodeErrorKind, SpecDecodeError};
pub use cursor::Cursor;
pub use constant_pool::{ConstantPoolType, ConstantPoolTag, ConstantTable, get_utf8,
    resolve_class_name};
pub use stack_map::{StackMapFrame, VerificationTypeInfo};
pub use annotations::{Annotation, ElementValue, ElementValuePair, ElementValueTag};
pub use attributes::{Attribute, AttributeTag, BootstrapMethod, ExceptionHandler, InnerClass,
    LineNumber, LocalVariable, MAX_NESTING_DEPTH};
pub use parser::{class_file, ClassFile, FieldInfo, MethodInfo, Version};
