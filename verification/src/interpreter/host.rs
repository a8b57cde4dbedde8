//! The float unit of the host. The library holds a float as the bit pattern
//! of a double and never reads it: what a numeral stands for, and what an
//! operator gives, it asks of a function that the host hands in.

use crate::interpreter::ast::Operator;
use vstd::prelude::*;

verus! {

/// What the library asks of the host's float unit. Floats are bit patterns
/// here, and only the host reads them.
#[derive(Debug)]
pub enum FloatRequest {
    /// The float that a numeral stands for.
    Literal(String),
    /// The float nearest to an integer.
    FromInteger(isize),
    /// The float with the opposite sign.
    Negate(u64),
    /// An arithmetic operator gives a float; a comparison gives 1 for true and
    /// 0 for false.
    Binary { operator: Operator, left: u64, right: u64 },
}

/// The mathematical value of a [`FloatRequest`].
pub enum FloatRequestModel {
    Literal(Seq<char>),
    FromInteger(isize),
    Negate(u64),
    Binary { operator: Operator, left: u64, right: u64 },
}

impl View for FloatRequest {
    type V = FloatRequestModel;

    open spec fn view(&self) -> FloatRequestModel {
        match self {
            FloatRequest::Literal(text) => FloatRequestModel::Literal(text@),
            FloatRequest::FromInteger(value) => FloatRequestModel::FromInteger(*value),
            FloatRequest::Negate(value) => FloatRequestModel::Negate(*value),
            FloatRequest::Binary { operator, left, right } => FloatRequestModel::Binary {
                operator: *operator,
                left: *left,
                right: *right,
            },
        }
    }
}

/// The answers of a float unit, as a function of the request.
pub type FloatUnit = spec_fn(FloatRequestModel) -> u64;

/// Whether `answer` is one that the host may give to `request`.
pub open spec fn host_may_answer<H: Fn(FloatRequest) -> u64>(
    host: &H,
    request: FloatRequestModel,
    answer: u64,
) -> bool {
    exists|q: FloatRequest| q@ == request && #[trigger] host.ensures((q,), answer)
}

/// The float unit that a host function stands for: to each request the answer
/// that the host gives.
pub open spec fn unit_of<H: Fn(FloatRequest) -> u64>(host: &H) -> FloatUnit {
    |request: FloatRequestModel| choose|answer: u64| host_may_answer(host, request, answer)
}

/// A host function is a float unit if it takes every request, and its answer
/// depends on nothing but the request.
pub open spec fn is_float_unit<H: Fn(FloatRequest) -> u64>(host: &H) -> bool {
    &&& forall|q: FloatRequest| #[trigger] host.requires((q,))
    &&& forall|q: FloatRequest, answer: u64| #[trigger]
        host.ensures((q,), answer) ==> answer == unit_of(host)(q@)
}

/// A host function that takes every request, and whose contract gives its
/// answer as a function of the request, is a float unit.
pub proof fn lemma_functional_host_is_float_unit<H: Fn(FloatRequest) -> u64>(
    host: &H,
    answers: FloatUnit,
)
    requires
        forall|q: FloatRequest| #[trigger] host.requires((q,)),
        forall|q: FloatRequest, answer: u64| #[trigger]
            host.ensures((q,), answer) ==> answer == answers(q@),
    ensures
        is_float_unit(host),
{
    assert forall|q: FloatRequest, answer: u64| #[trigger]
        host.ensures((q,), answer) implies answer == unit_of(host)(q@) by {
        assert(host_may_answer(host, q@, answer));
        let chosen = unit_of(host)(q@);
        assert(host_may_answer(host, q@, chosen));
        let other = choose|other: FloatRequest|
            other@ == q@ && #[trigger] host.ensures((other,), chosen);
        assert(chosen == answers(other@));
    }
}

/// Puts one request to the host.
pub(crate) fn ask<H: Fn(FloatRequest) -> u64>(host: &H, request: FloatRequest) -> (answer: u64)
    requires
        is_float_unit(host),
    ensures
        answer == unit_of(host)(request@),
{
    host(request)
}

} // verus!
