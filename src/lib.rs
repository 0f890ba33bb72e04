//! A schema-driven codec for fixed-layout binary records.
//!
//! A record is declared as an ordered list of named fields, each a scalar, the padding
//! marker, a nested record, or a fixed-size array of one of these, with annotations that
//! choose a byte order (`le`, `be`, `ne`) or mark the field as padding (`pad`,
//! `pad(bytes = N)`). [`RecordSchema::build`] checks such a declaration and resolves its
//! annotations; [`Codec::compile`] turns the schema into the exact sequence of operations
//! that reads or writes each field, in declaration order, with no implicit gaps. The codec
//! then decodes records from a [`Source`] and encodes them into a byte vector.
pub mod codec;
pub mod directive;
pub mod error;
pub mod io;
pub mod laws;
pub mod layout;
pub mod primitive;
pub mod schema;
pub mod source;
pub mod value;

pub use directive::{Annotation, ArgToken, ByteOrderMode, FieldDirective, PaddingMode};
pub use error::{CodecError, SchemaError};
pub use io::{Pad, Primitive, PrimitiveRead, PrimitiveWrite, Read, Reader, Write, Writer};
pub use layout::{Codec, ElemOp, FieldOp};
pub use primitive::{ByteOrder, PrimKind};
pub use schema::{
    ArrayArity, ArrayLen, ElemDecl, ElemType, FieldDecl, FieldSpec, RecordDecl, RecordSchema,
    TypeDecl,
};
pub use source::Source;
pub use value::Value;
