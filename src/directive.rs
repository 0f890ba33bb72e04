//! Per-field annotations and the directive that they resolve to.
use crate::error::SchemaError;
use vstd::prelude::*;
use vstd::utf8::encode_utf8;

verus! {

/// How a field's scalars are ordered, as the annotations say it.
#[derive(Clone, Copy, Debug, PartialEq, Eq, Structural)]
pub enum ByteOrderMode {
    Little,
    Big,
    Native,
    /// No annotation: a scalar uses the native order, a record its own layout.
    Default,
}

/// How a padding field is skipped.
#[derive(Clone, Copy, Debug, PartialEq, Eq, Structural)]
pub enum PaddingMode {
    /// As many bytes as the declared type occupies.
    SkipTypeSized,
    /// Exactly this many bytes, whatever the declared type.
    SkipBytes(usize),
}

/// What the annotations of one field resolve to.
#[derive(Clone, Copy, Debug, PartialEq, Eq, Structural)]
pub struct FieldDirective {
    pub byte_order: ByteOrderMode,
    pub padding: Option<PaddingMode>,
}

/// One token inside the parentheses of an annotation.
#[derive(Clone, Debug, PartialEq, Eq)]
pub enum ArgToken {
    Ident(String),
    Punct(char),
    /// A literal, as written in the source.
    Literal(String),
    /// A delimited group, whatever it holds.
    Group,
}

/// One annotation on a field: `#[name]` or `#[name(args)]`.
#[derive(Clone, Debug, PartialEq, Eq)]
pub struct Annotation {
    pub name: String,
    pub args: Option<Vec<ArgToken>>,
}

/// What an integer literal of Rust source text denotes as a `usize`, if it is one.
pub uninterp spec fn usize_literal(text: Seq<char>) -> Option<usize>;

/// A byte that may stand in the text of a number: an ASCII letter or digit
/// (`0`..`9` are 48..57, `A`..`Z` 65..90, `a`..`z` 97..122), or `_` (95).
pub open spec fn is_number_byte(c: u8) -> bool {
    ||| 48 <= c <= 57
    ||| 65 <= c <= 90
    ||| 97 <= c <= 122
    ||| c == 95
}

/// Whether the text whose chars are `s` has the shape of a number: its UTF-8 bytes are
/// ASCII letters, digits and `_`, the first a digit. Only such texts are handed to the
/// literal parser; any other text (a string or a C-string literal, a sign, a dot) is no
/// integer literal of this library.
pub open spec fn has_number_shape(s: Seq<char>) -> bool {
    let b = encode_utf8(s);
    &&& b.len() > 0
    &&& 48 <= b[0] <= 57
    &&& forall|i: int| 0 <= i < b.len() ==> is_number_byte(#[trigger] b[i])
}

/// Relies on syn's `LitInt` parser and `LitInt::base10_parse`: the value of an integer
/// literal written in Rust syntax, or nothing when the text is no such literal or the value
/// does not fit in a `usize`. The result depends on the text alone. Texts of the number
/// shape lex to an integer or float literal that syn classifies, or fail to lex; syn
/// panics on some literals of other shapes, which the precondition keeps out.
#[verifier::external_body]
pub(crate) fn parse_usize_literal(text: &String) -> (r: Option<usize>)
    requires
        has_number_shape(text@),
    ensures
        r == usize_literal(text@),
{
    match syn::parse_str::<syn::LitInt>(text) {
        Ok(lit) => lit.base10_parse::<usize>().ok(),
        Err(_) => None,
    }
}

/// Whether `text` has the shape of a number.
pub fn number_shaped(text: &String) -> (r: bool)
    ensures
        r == has_number_shape(text@),
{
    let b = text.as_str().as_bytes();
    if b.len() == 0 {
        return false;
    }
    if !(48 <= b[0] && b[0] <= 57) {
        return false;
    }
    let mut i: usize = 0;
    while i < b.len()
        invariant
            i <= b@.len(),
            b@ == encode_utf8(text@),
            forall|j: int| 0 <= j < i ==> is_number_byte(#[trigger] b@[j]),
        decreases b@.len() - i,
    {
        let c = b[i];
        if !((48 <= c && c <= 57) || (65 <= c && c <= 90) || (97 <= c && c <= 122) || c == 95) {
            return false;
        }
        i = i + 1;
    }
    true
}

fn is_word(s: &String, w: &str) -> (r: bool)
    ensures
        r == (s@ == w@),
{
    *s == w.to_owned()
}

impl FieldDirective {
    /// The directive of a field without annotations.
    pub open spec fn spec_plain() -> FieldDirective {
        FieldDirective { byte_order: ByteOrderMode::Default, padding: None }
    }

    pub fn plain() -> (r: FieldDirective)
        ensures
            r == FieldDirective::spec_plain(),
    {
        FieldDirective { byte_order: ByteOrderMode::Default, padding: None }
    }
}

/// The byte order that an annotation name selects, if any.
pub open spec fn order_named(name: Seq<char>) -> Option<ByteOrderMode> {
    if name == "le"@ {
        Some(ByteOrderMode::Little)
    } else if name == "be"@ {
        Some(ByteOrderMode::Big)
    } else if name == "ne"@ {
        Some(ByteOrderMode::Native)
    } else {
        None
    }
}

/// Whether `args` reads `bytes = <literal>`.
pub open spec fn is_bytes_param(args: Seq<ArgToken>) -> bool {
    &&& args.len() == 3
    &&& args[0] matches ArgToken::Ident(id) && id@ == "bytes"@
    &&& args[1] == ArgToken::Punct('=')
    &&& args[2] is Literal
}

/// The literal of a `bytes = N` parameter, as a number.
pub open spec fn bytes_literal(args: Option<Vec<ArgToken>>) -> Option<usize> {
    match args {
        Some(v) => if is_bytes_param(v@) && has_number_shape(v@[2]->Literal_0@) {
            usize_literal(v@[2]->Literal_0@)
        } else {
            None
        },
        None => None,
    }
}

/// The padding that the parameters of a `pad` annotation ask for, given the value of the
/// literal among them (`literal`).
pub open spec fn padding_spec(args: Option<Vec<ArgToken>>, literal: Option<usize>) -> Result<
    PaddingMode,
    SchemaError,
> {
    match args {
        None => Ok(PaddingMode::SkipTypeSized),
        Some(v) => if v@.len() == 0 {
            Ok(PaddingMode::SkipTypeSized)
        } else if is_bytes_param(v@) {
            match literal {
                Some(n) => Ok(PaddingMode::SkipBytes(n)),
                None => Err(SchemaError::MalformedPadding),
            }
        } else {
            Err(SchemaError::MalformedPadding)
        },
    }
}

/// The directive after one more annotation.
pub open spec fn apply_annotation(d: FieldDirective, a: Annotation) -> Result<
    FieldDirective,
    SchemaError,
> {
    match order_named(a.name@) {
        Some(o) => if d.byte_order == ByteOrderMode::Default || d.byte_order == o {
            Ok(FieldDirective { byte_order: o, padding: d.padding })
        } else {
            Err(SchemaError::ConflictingByteOrder)
        },
        None => if a.name@ == "pad"@ {
            match padding_spec(a.args, bytes_literal(a.args)) {
                Ok(p) => Ok(FieldDirective { byte_order: d.byte_order, padding: Some(p) }),
                Err(e) => Err(e),
            }
        } else {
            Ok(d)
        },
    }
}

/// The directive that a field's annotations resolve to, read in order; the first
/// annotation that fails decides the error.
pub open spec fn resolve_spec(anns: Seq<Annotation>) -> Result<FieldDirective, SchemaError>
    decreases anns.len(),
{
    if anns.len() == 0 {
        Ok(FieldDirective::spec_plain())
    } else {
        match resolve_spec(anns.drop_last()) {
            Ok(d) => apply_annotation(d, anns.last()),
            Err(e) => Err(e),
        }
    }
}

fn has_bytes_param(args: &Vec<ArgToken>) -> (r: bool)
    ensures
        r == is_bytes_param(args@),
{
    if args.len() != 3 {
        return false;
    }
    let first = match &args[0] {
        ArgToken::Ident(id) => is_word(id, "bytes"),
        _ => false,
    };
    let second = match &args[1] {
        ArgToken::Punct(c) => *c == '=',
        _ => false,
    };
    let third = match &args[2] {
        ArgToken::Literal(_) => true,
        _ => false,
    };
    first && second && third
}

/// The padding of a `pad` annotation with these parameters, where `literal` is the value
/// of the literal among them.
pub fn padding_from(args: &Option<Vec<ArgToken>>, literal: Option<usize>) -> (r: Result<
    PaddingMode,
    SchemaError,
>)
    ensures
        r == padding_spec(*args, literal),
{
    match args {
        None => Ok(PaddingMode::SkipTypeSized),
        Some(v) => {
            if v.len() == 0 {
                Ok(PaddingMode::SkipTypeSized)
            } else if has_bytes_param(v) {
                match literal {
                    Some(n) => Ok(PaddingMode::SkipBytes(n)),
                    None => Err(SchemaError::MalformedPadding),
                }
            } else {
                Err(SchemaError::MalformedPadding)
            }
        },
    }
}

/// The padding of a `pad` annotation with these parameters.
pub fn parse_padding(args: &Option<Vec<ArgToken>>) -> (r: Result<PaddingMode, SchemaError>)
    ensures
        r == padding_spec(*args, bytes_literal(*args)),
{
    let literal = match args {
        Some(v) => {
            if has_bytes_param(v) {
                match &v[2] {
                    ArgToken::Literal(text) => if number_shaped(text) {
                        parse_usize_literal(text)
                    } else {
                        None
                    },
                    _ => None,
                }
            } else {
                None
            }
        },
        None => None,
    };
    padding_from(args, literal)
}

fn byte_order_named(name: &String) -> (r: Option<ByteOrderMode>)
    ensures
        r == order_named(name@),
{
    if is_word(name, "le") {
        Some(ByteOrderMode::Little)
    } else if is_word(name, "be") {
        Some(ByteOrderMode::Big)
    } else if is_word(name, "ne") {
        Some(ByteOrderMode::Native)
    } else {
        None
    }
}

fn annotate(d: FieldDirective, a: &Annotation) -> (r: Result<
    FieldDirective,
    SchemaError,
>)
    ensures
        r == apply_annotation(d, *a),
{
    match byte_order_named(&a.name) {
        Some(o) => {
            if d.byte_order == ByteOrderMode::Default || d.byte_order == o {
                Ok(FieldDirective { byte_order: o, padding: d.padding })
            } else {
                Err(SchemaError::ConflictingByteOrder)
            }
        },
        None => {
            if is_word(&a.name, "pad") {
                match parse_padding(&a.args) {
                    Ok(p) => Ok(FieldDirective { byte_order: d.byte_order, padding: Some(p) }),
                    Err(e) => Err(e),
                }
            } else {
                Ok(d)
            }
        },
    }
}

impl FieldDirective {
    /// Resolves the annotations of one field, in order. At most one byte order may be
    /// named (naming the same one twice is no conflict); the last `pad` decides the padding;
    /// other annotations are ignored.
    pub fn resolve(anns: &Vec<Annotation>) -> (r: Result<FieldDirective, SchemaError>)
        ensures
            r == resolve_spec(anns@),
    {
        let mut acc: Result<FieldDirective, SchemaError> = Ok(FieldDirective::plain());
        let mut i: usize = 0;
        while i < anns.len()
            invariant
                i <= anns@.len(),
                acc == resolve_spec(anns@.take(i as int)),
            decreases anns@.len() - i,
        {
            assert(anns@.take(i + 1).drop_last() =~= anns@.take(i as int));
            acc = match acc {
                Ok(d) => annotate(d, &anns[i]),
                Err(e) => Err(e),
            };
            i = i + 1;
        }
        assert(anns@.take(anns@.len() as int) =~= anns@);
        acc
    }
}

} // verus!
