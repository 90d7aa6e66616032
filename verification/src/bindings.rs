//! Resolving the names by which a caller from another language picks a
//! constructor: the names of atom types, domains, metrics and measures.
//!
//! Integers of every width are held as 64-bit integers, and floating-point
//! numbers of either width as fixed-point numbers.

use vstd::prelude::*;
use vstd::string::StrSliceExecFns;
use crate::error::{Error, Fallible};

verus! {

/// The type of an atom, as a caller names it.
#[derive(Clone, Copy, Debug, PartialEq, Eq, Structural)]
pub enum AtomType {
    U8,
    U16,
    U32,
    U64,
    U128,
    Usize,
    I8,
    I16,
    I32,
    I64,
    I128,
    Single,
    Double,
}

impl AtomType {
    pub open spec fn spec_is_integer(&self) -> bool {
        !(*self is Single) && !(*self is Double)
    }

    pub fn is_integer(&self) -> (r: bool)
        ensures
            r == self.spec_is_integer(),
    {
        match self {
            AtomType::Single => false,
            AtomType::Double => false,
            _ => true,
        }
    }
}

/// Whether a domain holds single atoms or vectors of atoms.
#[derive(Clone, Copy, Debug, PartialEq, Eq, Structural)]
pub enum Shape {
    Scalar,
    Vector,
}

/// A metric that counts records.
#[derive(Clone, Copy, Debug, PartialEq, Eq, Structural)]
pub enum MetricKind {
    Symmetric,
    InsertDelete,
}

/// The atom type with the given name, if there is one.
pub open spec fn spec_atom_type(name: Seq<char>) -> Option<AtomType> {
    if name == "u8"@ {
        Some(AtomType::U8)
    } else if name == "u16"@ {
        Some(AtomType::U16)
    } else if name == "u32"@ {
        Some(AtomType::U32)
    } else if name == "u64"@ {
        Some(AtomType::U64)
    } else if name == "u128"@ {
        Some(AtomType::U128)
    } else if name == "usize"@ {
        Some(AtomType::Usize)
    } else if name == "i8"@ {
        Some(AtomType::I8)
    } else if name == "i16"@ {
        Some(AtomType::I16)
    } else if name == "i32"@ {
        Some(AtomType::I32)
    } else if name == "i64"@ {
        Some(AtomType::I64)
    } else if name == "i128"@ {
        Some(AtomType::I128)
    } else if name == "f32"@ {
        Some(AtomType::Single)
    } else if name == "f64"@ {
        Some(AtomType::Double)
    } else {
        None
    }
}

/// The metric with the given name, if there is one.
pub open spec fn spec_metric_kind(name: Seq<char>) -> Option<MetricKind> {
    if name == "SymmetricDistance"@ {
        Some(MetricKind::Symmetric)
    } else if name == "InsertDeleteDistance"@ {
        Some(MetricKind::InsertDelete)
    } else {
        None
    }
}

/// Whether `text` is `inner` between `prefix` and `suffix`.
pub open spec fn is_framed(text: Seq<char>, prefix: Seq<char>, inner: Seq<char>, suffix: Seq<char>) -> bool {
    text == prefix + inner + suffix
}

/// What stands between `prefix` and `suffix` in `text`, if `text` begins with
/// the one and ends with the other.
pub open spec fn spec_unframe(text: Seq<char>, prefix: Seq<char>, suffix: Seq<char>) -> Option<
    Seq<char>,
> {
    if text.len() >= prefix.len() + suffix.len() && text.subrange(0, prefix.len() as int) == prefix
        && text.subrange(text.len() - suffix.len(), text.len() as int) == suffix {
        Some(text.subrange(prefix.len() as int, text.len() - suffix.len()))
    } else {
        None
    }
}

/// A text is framed by a prefix and a suffix exactly if taking the frame off
/// gives what stood inside.
pub proof fn lemma_unframe(text: Seq<char>, prefix: Seq<char>, inner: Seq<char>, suffix: Seq<char>)
    ensures
        is_framed(text, prefix, inner, suffix) <==> spec_unframe(text, prefix, suffix) == Some(inner),
{
    if is_framed(text, prefix, inner, suffix) {
        assert(text.subrange(0, prefix.len() as int) =~= prefix);
        assert(text.subrange(text.len() - suffix.len(), text.len() as int) =~= suffix);
        assert(text.subrange(prefix.len() as int, text.len() - suffix.len()) =~= inner);
    }
    if spec_unframe(text, prefix, suffix) == Some(inner) {
        assert(text =~= prefix + inner + suffix);
    }
}

/// The shape and the atom type of the domain with the given descriptor:
/// `AllDomain<T>` or `VectorDomain<AllDomain<T>>` for an atom type `T`.
pub open spec fn spec_domain_shape(descriptor: Seq<char>) -> Option<(Shape, AtomType)> {
    match spec_unframe(descriptor, "VectorDomain<"@, ">"@) {
        Some(element) => match spec_unframe(element, "AllDomain<"@, ">"@) {
            Some(name) => match spec_atom_type(name) {
                Some(atom) => Some((Shape::Vector, atom)),
                None => None,
            },
            None => None,
        },
        None => match spec_unframe(descriptor, "AllDomain<"@, ">"@) {
            Some(name) => match spec_atom_type(name) {
                Some(atom) => Some((Shape::Scalar, atom)),
                None => None,
            },
            None => None,
        },
    }
}

/// The atom type of the measure `measure<Q>` with the given descriptor.
pub open spec fn spec_measure_atom(descriptor: Seq<char>, measure: Seq<char>) -> Option<AtomType> {
    match spec_unframe(descriptor, measure + "<"@, ">"@) {
        Some(name) => spec_atom_type(name),
        None => None,
    }
}

fn same_text(a: &str, b: &str) -> (r: bool)
    ensures
        r == (a@ == b@),
{
    a.to_owned() == b.to_owned()
}

/// Takes a prefix and a suffix off a text.
pub fn unframe<'a>(text: &'a str, prefix: &str, suffix: &str) -> (r: Option<&'a str>)
    ensures
        match spec_unframe(text@, prefix@, suffix@) {
            Some(inner) => r is Some && r->Some_0@ == inner,
            None => r is None,
        },
{
    let n = text.unicode_len();
    let p = prefix.unicode_len();
    let s = suffix.unicode_len();
    if n < p || n - p < s {
        return None;
    }
    if !same_text(text.substring_char(0, p), prefix) {
        return None;
    }
    if !same_text(text.substring_char(n - s, n), suffix) {
        return None;
    }
    Some(text.substring_char(p, n - s))
}

/// Resolves the name of an atom type. An unknown name is an invalid
/// parameter.
pub fn atom_type(name: &str) -> (r: Fallible<AtomType>)
    ensures
        match spec_atom_type(name@) {
            Some(atom) => r == Ok::<AtomType, Error>(atom),
            None => r == Err::<AtomType, Error>(Error::InvalidParameter),
        },
{
    if same_text(name, "u8") {
        Ok(AtomType::U8)
    } else if same_text(name, "u16") {
        Ok(AtomType::U16)
    } else if same_text(name, "u32") {
        Ok(AtomType::U32)
    } else if same_text(name, "u64") {
        Ok(AtomType::U64)
    } else if same_text(name, "u128") {
        Ok(AtomType::U128)
    } else if same_text(name, "usize") {
        Ok(AtomType::Usize)
    } else if same_text(name, "i8") {
        Ok(AtomType::I8)
    } else if same_text(name, "i16") {
        Ok(AtomType::I16)
    } else if same_text(name, "i32") {
        Ok(AtomType::I32)
    } else if same_text(name, "i64") {
        Ok(AtomType::I64)
    } else if same_text(name, "i128") {
        Ok(AtomType::I128)
    } else if same_text(name, "f32") {
        Ok(AtomType::Single)
    } else if same_text(name, "f64") {
        Ok(AtomType::Double)
    } else {
        Err(Error::InvalidParameter)
    }
}

/// Resolves the name of a metric that counts records. An unknown name is an
/// invalid parameter.
pub fn metric_kind(name: &str) -> (r: Fallible<MetricKind>)
    ensures
        match spec_metric_kind(name@) {
            Some(kind) => r == Ok::<MetricKind, Error>(kind),
            None => r == Err::<MetricKind, Error>(Error::InvalidParameter),
        },
{
    if same_text(name, "SymmetricDistance") {
        Ok(MetricKind::Symmetric)
    } else if same_text(name, "InsertDeleteDistance") {
        Ok(MetricKind::InsertDelete)
    } else {
        Err(Error::InvalidParameter)
    }
}

/// Resolves the descriptor of a domain of atoms or of vectors of atoms. An
/// unknown descriptor is an invalid parameter.
pub fn domain_shape(descriptor: &str) -> (r: Fallible<(Shape, AtomType)>)
    ensures
        match spec_domain_shape(descriptor@) {
            Some(shape) => r == Ok::<(Shape, AtomType), Error>(shape),
            None => r == Err::<(Shape, AtomType), Error>(Error::InvalidParameter),
        },
{
    match unframe(descriptor, "VectorDomain<", ">") {
        Some(element) => match unframe(element, "AllDomain<", ">") {
            Some(name) => Ok((Shape::Vector, atom_type(name)?)),
            None => Err(Error::InvalidParameter),
        },
        None => match unframe(descriptor, "AllDomain<", ">") {
            Some(name) => Ok((Shape::Scalar, atom_type(name)?)),
            None => Err(Error::InvalidParameter),
        },
    }
}

/// What a caller picks who asks for a discrete Gaussian mechanism: the shape
/// of the domain, which must be one of integers, and the type in which the
/// caller holds the scale, which must be a floating-point type.
pub open spec fn spec_resolve_discrete_gaussian(domain: Seq<char>, measure: Seq<char>) -> Option<
    (Shape, AtomType),
> {
    match spec_domain_shape(domain) {
        Some((shape, atom)) => if atom.spec_is_integer() {
            match spec_unframe(measure, "ZeroConcentratedDivergence<"@, ">"@) {
                Some(name) => match spec_atom_type(name) {
                    Some(scale) => if scale.spec_is_integer() {
                        None
                    } else {
                        Some((shape, scale))
                    },
                    None => None,
                },
                None => None,
            }
        } else {
            None
        },
        None => None,
    }
}

/// Resolves the descriptors that a caller gives for a discrete Gaussian
/// mechanism. Descriptors that name no such mechanism are an invalid
/// parameter.
pub fn resolve_discrete_gaussian(domain: &str, measure: &str) -> (r: Fallible<(Shape, AtomType)>)
    ensures
        match spec_resolve_discrete_gaussian(domain@, measure@) {
            Some(picked) => r == Ok::<(Shape, AtomType), Error>(picked),
            None => r == Err::<(Shape, AtomType), Error>(Error::InvalidParameter),
        },
{
    let (shape, atom) = domain_shape(domain)?;
    if !atom.is_integer() {
        return Err(Error::InvalidParameter);
    }
    let scale = match unframe(measure, "ZeroConcentratedDivergence<", ">") {
        Some(name) => atom_type(name)?,
        None => {
            return Err(Error::InvalidParameter);
        },
    };
    if scale.is_integer() {
        return Err(Error::InvalidParameter);
    }
    Ok((shape, scale))
}

/// What a caller picks who asks for a resize: the two metrics and the type of
/// the atoms.
pub open spec fn spec_resolve_resize(
    input_metric: Seq<char>,
    output_metric: Seq<char>,
    atom: Seq<char>,
) -> Option<(MetricKind, MetricKind, AtomType)> {
    match spec_metric_kind(input_metric) {
        Some(mi) => match spec_metric_kind(output_metric) {
            Some(mo) => match spec_atom_type(atom) {
                Some(atom) => Some((mi, mo, atom)),
                None => None,
            },
            None => None,
        },
        None => None,
    }
}

/// Resolves the names that a caller gives for a resize. Names that are
/// unknown are an invalid parameter.
pub fn resolve_resize(input_metric: &str, output_metric: &str, atom: &str) -> (r: Fallible<
    (MetricKind, MetricKind, AtomType),
>)
    ensures
        match spec_resolve_resize(input_metric@, output_metric@, atom@) {
            Some(picked) => r == Ok::<(MetricKind, MetricKind, AtomType), Error>(picked),
            None => r == Err::<(MetricKind, MetricKind, AtomType), Error>(Error::InvalidParameter),
        },
{
    let mi = metric_kind(input_metric)?;
    let mo = metric_kind(output_metric)?;
    let atom = atom_type(atom)?;
    Ok((mi, mo, atom))
}

} // verus!
