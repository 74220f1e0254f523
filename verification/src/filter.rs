//! Metadata filter operators: how a filter document names them, and which
//! operands they accept.
//!
//! A filter is a JSON object; each field maps either to a value (equality)
//! or to an object of operators: `$eq`, `$ne`, `$in`, `$gt`, `$lt`, `$gte`,
//! `$lte`. `$in` takes an array, the comparisons take a number. The JSON
//! values themselves, and the numeric comparisons, are handled by the
//! caller; this module decides what a filter document means and which
//! documents are refused, with what message.
use crate::error::FerresError;
use crate::text::push_str;
use vstd::prelude::*;

verus! {

/// The kind of a JSON value.
#[derive(Debug, Clone, Copy, PartialEq, Eq, Structural)]
pub enum JsonKind {
    Null,
    Bool,
    Number,
    String,
    Array,
    Object,
}

/// A metadata filter operator.
#[derive(Debug, Clone, Copy, PartialEq, Eq, Structural)]
pub enum FilterOp {
    /// Field equals the operand.
    Eq,
    /// Field differs from the operand (an absent field also passes).
    Ne,
    /// Field equals one of the operand's elements.
    In,
    /// Field is a number greater than the operand.
    Gt,
    /// Field is a number less than the operand.
    Lt,
    /// Field is a number greater than or equal to the operand.
    Gte,
    /// Field is a number less than or equal to the operand.
    Lte,
}

/// How a filter document names `op`.
pub open spec fn op_name(op: FilterOp) -> Seq<char> {
    match op {
        FilterOp::Eq => "$eq"@,
        FilterOp::Ne => "$ne"@,
        FilterOp::In => "$in"@,
        FilterOp::Gt => "$gt"@,
        FilterOp::Lt => "$lt"@,
        FilterOp::Gte => "$gte"@,
        FilterOp::Lte => "$lte"@,
    }
}

/// The operator that `name` denotes, if any.
pub open spec fn parse_op(name: Seq<char>) -> Option<FilterOp> {
    if name == "$eq"@ {
        Some(FilterOp::Eq)
    } else if name == "$ne"@ {
        Some(FilterOp::Ne)
    } else if name == "$in"@ {
        Some(FilterOp::In)
    } else if name == "$gt"@ {
        Some(FilterOp::Gt)
    } else if name == "$lt"@ {
        Some(FilterOp::Lt)
    } else if name == "$gte"@ {
        Some(FilterOp::Gte)
    } else if name == "$lte"@ {
        Some(FilterOp::Lte)
    } else {
        None
    }
}

/// `op` compares numbers.
pub open spec fn is_numeric(op: FilterOp) -> bool {
    op == FilterOp::Gt || op == FilterOp::Lt || op == FilterOp::Gte || op == FilterOp::Lte
}

/// The error message for field `field` and operator name `op` when the
/// name is unknown or the operand has the wrong kind.
pub open spec fn op_error(field: Seq<char>, op: Seq<char>) -> Seq<char> {
    match parse_op(op) {
        None => "filter."@ + field + ": unknown operator '"@ + op + "'"@,
        Some(FilterOp::In) => "filter."@ + field + ": "@ + op + " must be an array"@,
        Some(_) => "filter."@ + field + ": "@ + op + " must be a number"@,
    }
}

/// The operator that operator name `op` with an operand of kind `operand`
/// stands for, or `None` when the name is unknown or the operand has the
/// wrong kind.
pub open spec fn operator_for(op: Seq<char>, operand: JsonKind) -> Option<FilterOp> {
    match parse_op(op) {
        None => None,
        Some(x) => if (x == FilterOp::In && operand != JsonKind::Array) || (is_numeric(x)
            && operand != JsonKind::Number) {
            None
        } else {
            Some(x)
        },
    }
}

fn str_is(s: &str, lit: &str) -> (b: bool)
    ensures
        b == (s@ == lit@),
{
    s.to_owned() == lit.to_owned()
}

fn field_error(field: &str, middle: &str, op: &str, tail: &str) -> (e: FerresError)
    ensures
        e matches FerresError::InvalidVector { reason } && reason@ == "filter."@ + field@ + middle@
            + op@ + tail@,
{
    let mut reason = "filter.".to_owned();
    push_str(&mut reason, field);
    push_str(&mut reason, middle);
    push_str(&mut reason, op);
    push_str(&mut reason, tail);
    FerresError::InvalidVector { reason }
}

impl FilterOp {
    /// How a filter document names the operator.
    pub fn name(&self) -> (s: &'static str)
        ensures
            s@ == op_name(*self),
    {
        match self {
            FilterOp::Eq => "$eq",
            FilterOp::Ne => "$ne",
            FilterOp::In => "$in",
            FilterOp::Gt => "$gt",
            FilterOp::Lt => "$lt",
            FilterOp::Gte => "$gte",
            FilterOp::Lte => "$lte",
        }
    }

    /// Whether the operator compares numbers.
    pub fn is_numeric(&self) -> (b: bool)
        ensures
            b == is_numeric(*self),
    {
        match self {
            FilterOp::Gt | FilterOp::Lt | FilterOp::Gte | FilterOp::Lte => true,
            _ => false,
        }
    }

    /// The operator that `op` names within the conditions of field
    /// `field`, given the kind of its operand. An unknown name, an `$in`
    /// whose operand is not an array and a comparison whose operand is not
    /// a number are refused with `InvalidVector` and the message
    /// `op_error(field, op)`.
    pub fn parse(field: &str, op: &str, operand: JsonKind) -> (r: Result<FilterOp, FerresError>)
        ensures
            operator_for(op@, operand) matches Some(x) ==> r == Ok::<FilterOp, FerresError>(x),
            operator_for(op@, operand) is None ==> (r matches Err(
                FerresError::InvalidVector { reason },
            ) && reason@ == op_error(field@, op@)),
    {
        let x = if str_is(op, "$eq") {
            FilterOp::Eq
        } else if str_is(op, "$ne") {
            FilterOp::Ne
        } else if str_is(op, "$in") {
            FilterOp::In
        } else if str_is(op, "$gt") {
            FilterOp::Gt
        } else if str_is(op, "$lt") {
            FilterOp::Lt
        } else if str_is(op, "$gte") {
            FilterOp::Gte
        } else if str_is(op, "$lte") {
            FilterOp::Lte
        } else {
            return Err(field_error(field, ": unknown operator '", op, "'"));
        };
        if x == FilterOp::In && operand != JsonKind::Array {
            return Err(field_error(field, ": ", op, " must be an array"));
        }
        if x.is_numeric() && operand != JsonKind::Number {
            return Err(field_error(field, ": ", op, " must be a number"));
        }
        Ok(x)
    }
}

/// What a top-level key of a filter document is.
pub open spec fn is_namespace_key(key: Seq<char>) -> bool {
    key == "$namespace"@
}

/// Whether a top-level key of a filter document is `$namespace` (whose
/// value selects the namespace) rather than a metadata field.
pub fn namespace_key(key: &str) -> (b: bool)
    ensures
        b == is_namespace_key(key@),
{
    str_is(key, "$namespace")
}

/// The error for a filter document that is neither an object nor null, or
/// whose `$namespace` is not a string.
pub fn filter_shape_error(namespace: bool) -> (e: FerresError)
    ensures
        e matches FerresError::InvalidVector { reason } && reason@ == (if namespace {
            "filter.$namespace must be a string"@
        } else {
            "filter must be a JSON object or null"@
        }),
{
    if namespace {
        FerresError::InvalidVector { reason: "filter.$namespace must be a string".to_owned() }
    } else {
        FerresError::InvalidVector { reason: "filter must be a JSON object or null".to_owned() }
    }
}

/// Every operator's name, with an operand of the kind it takes, parses
/// back to that operator.
pub proof fn law_operator_names_roundtrip(op: FilterOp)
    ensures
        operator_for(
            op_name(op),
            if op == FilterOp::In {
                JsonKind::Array
            } else {
                JsonKind::Number
            },
        ) == Some(op),
{
    reveal_strlit("$eq");
    reveal_strlit("$ne");
    reveal_strlit("$in");
    reveal_strlit("$gt");
    reveal_strlit("$lt");
    reveal_strlit("$gte");
    reveal_strlit("$lte");
    let n = op_name(op);
    match op {
        FilterOp::Eq => {},
        FilterOp::Ne => {
            assert(n[1] != "$eq"@[1]);
        },
        FilterOp::In => {
            assert(n[1] != "$eq"@[1]);
            assert(n[1] != "$ne"@[1]);
        },
        FilterOp::Gt => {
            assert(n[1] != "$eq"@[1]);
            assert(n[1] != "$ne"@[1]);
            assert(n[1] != "$in"@[1]);
        },
        FilterOp::Lt => {
            assert(n[1] != "$eq"@[1]);
            assert(n[1] != "$ne"@[1]);
            assert(n[1] != "$in"@[1]);
            assert(n[1] != "$gt"@[1]);
        },
        FilterOp::Gte => {
            assert(n[1] != "$eq"@[1]);
            assert(n[1] != "$ne"@[1]);
            assert(n[1] != "$in"@[1]);
            assert(n.len() != "$gt"@.len());
            assert(n[1] != "$lt"@[1]);
        },
        FilterOp::Lte => {
            assert(n[1] != "$eq"@[1]);
            assert(n[1] != "$ne"@[1]);
            assert(n[1] != "$in"@[1]);
            assert(n[1] != "$gt"@[1]);
            assert(n.len() != "$lt"@.len());
            assert(n[1] != "$gte"@[1]);
        },
    }
}

} // verus!
