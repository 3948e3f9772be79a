//! The untrusted-input quotas, checked before any tool does work.
//!
//! A request is refused when its serialized size, one of its strings (in UTF-8 bytes), one of its
//! arrays, or the number of records of a bulk document exceeds the configured limit. The first
//! breach found, walking the arguments depth first in order, is the one reported.
use vstd::prelude::*;

use crate::error::{
    error_of, with_context, with_hint, ContextView, ErrorCode, ErrorView, StructuredError,
};
use crate::json::JsonValue;
use crate::text::{decimal, push_decimal, push_str};

verus! {

/// The configured limits on untrusted input.
#[derive(Debug, Clone, Copy, PartialEq, Eq, Structural)]
pub struct Quotas {
    /// The largest accepted serialized request, in bytes.
    pub max_request_bytes: usize,
    /// The longest accepted array.
    pub max_array_len: usize,
    /// The longest accepted string, in UTF-8 bytes.
    pub max_string_len: usize,
    /// The most records a bulk document may create.
    pub max_batch: usize,
    /// The most requests served at once.
    pub max_concurrent_requests: usize,
}

/// What a quota limits.
#[derive(Debug, Clone, Copy, PartialEq, Eq, Structural)]
pub enum QuotaKind {
    Request,
    Str,
    Array,
    Batch,
}

/// The name a quota is reported under.
pub open spec fn kind_name(k: QuotaKind) -> Seq<char> {
    match k {
        QuotaKind::Request => "request"@,
        QuotaKind::Str => "string"@,
        QuotaKind::Array => "array"@,
        QuotaKind::Batch => "batch"@,
    }
}

/// The over-quota error: `{kind} exceeds the configured quota ({actual} > {limit})`, with a hint
/// and the `kind`, `actual` and `limit` context entries.
pub open spec fn over_quota_error(k: QuotaKind, actual: nat, limit: nat) -> ErrorView {
    with_context(
        with_context(
            with_context(
                with_hint(
                    error_of(
                        ErrorCode::ValidationFailed,
                        kind_name(k) + " exceeds the configured quota ("@ + decimal(actual) + " > "@
                            + decimal(limit) + ")"@,
                    ),
                    "reduce the input size below the server quota and retry"@,
                ),
                "kind"@,
                ContextView::Text(kind_name(k)),
            ),
            "actual"@,
            ContextView::Number(actual),
        ),
        "limit"@,
        ContextView::Number(limit),
    )
}

/// The length of `s` in UTF-8 bytes.
pub open spec fn byte_len(s: String) -> usize {
    vstd::utf8::encode_utf8(s@).len() as usize
}

/// The number of children of `v`: its elements or its member values.
pub open spec fn child_count(v: JsonValue) -> nat {
    match v {
        JsonValue::Array(items) => items@.len(),
        JsonValue::Object(members) => members@.len(),
        _ => 0,
    }
}

/// The `i`-th child of `v`.
pub open spec fn child(v: JsonValue, i: int) -> JsonValue
    recommends
        0 <= i < child_count(v),
{
    match v {
        JsonValue::Array(items) => items@[i],
        JsonValue::Object(members) => members@[i].1,
        _ => v,
    }
}

/// The first quota breach inside `v`, depth first: a string over `max_string_len`, or an array
/// over `max_array_len` (checked before its elements).
pub open spec fn first_breach(v: JsonValue, q: Quotas) -> Option<(QuotaKind, nat, nat)>
    decreases v, child_count(v) + 1,
{
    match v {
        JsonValue::Str(s) => if byte_len(s) > q.max_string_len {
            Some((QuotaKind::Str, byte_len(s) as nat, q.max_string_len as nat))
        } else {
            None
        },
        JsonValue::Array(items) => if items@.len() > q.max_array_len {
            Some((QuotaKind::Array, items@.len(), q.max_array_len as nat))
        } else {
            first_breach_from(v, 0, q)
        },
        JsonValue::Object(_) => first_breach_from(v, 0, q),
        _ => None,
    }
}

/// The first quota breach inside the children of `v` from the `i`-th on.
pub open spec fn first_breach_from(v: JsonValue, i: nat, q: Quotas) -> Option<(
    QuotaKind,
    nat,
    nat,
)>
    decreases v, child_count(v) - i,
{
    if i >= child_count(v) {
        None
    } else {
        proof {
            match v {
                JsonValue::Array(items) => {
                    assert(decreases_to!(v => items));
                    assert(decreases_to!(items => items@));
                    assert(decreases_to!(items@ => items@[i as int]));
                },
                JsonValue::Object(members) => {
                    assert(decreases_to!(v => members));
                    assert(decreases_to!(members => members@));
                    assert(decreases_to!(members@ => members@[i as int]));
                    assert(decreases_to!(members@[i as int] => members@[i as int].1));
                },
                _ => {},
            }
        }
        match first_breach(child(v, i as int), q) {
            Some(b) => Some(b),
            None => first_breach_from(v, i + 1, q),
        }
    }
}

/// The value found by following `path` down from `v`, each step picking a child (an array
/// element or an object member's value) by position; `None` when a step has no such child.
pub open spec fn value_at(v: JsonValue, path: Seq<int>) -> Option<JsonValue>
    decreases path.len(),
{
    if path.len() == 0 {
        Some(v)
    } else if 0 <= path[0] < child_count(v) {
        value_at(child(v, path[0]), path.drop_first())
    } else {
        None
    }
}

/// Whether the value `w` is within the string and array limits of `q` itself (not looking
/// inside it).
pub open spec fn within_limits(w: JsonValue, q: Quotas) -> bool {
    &&& w matches JsonValue::Str(s) ==> byte_len(s) <= q.max_string_len
    &&& w matches JsonValue::Array(items) ==> items@.len() <= q.max_array_len
}

proof fn lemma_breach_from_none(v: JsonValue, i: nat, q: Quotas, j: int)
    requires
        first_breach_from(v, i, q) is None,
        i <= j < child_count(v),
    ensures
        first_breach(child(v, j), q) is None,
    decreases child_count(v) - i,
{
    if i < j {
        lemma_breach_from_none(v, i + 1, q, j);
    }
}

proof fn lemma_breach_from_some(v: JsonValue, i: nat, q: Quotas, j: int)
    requires
        first_breach(child(v, j), q) is Some,
        i <= j < child_count(v),
    ensures
        first_breach_from(v, i, q) is Some,
    decreases child_count(v) - i,
{
    if i < j {
        lemma_breach_from_some(v, i + 1, q, j);
    }
}

/// A value in which no breach is found has every value inside it, at every depth and at every
/// position, within the limits; one with a value inside it over a limit has a breach.
pub proof fn lemma_breach_iff_value_over_limit(v: JsonValue, q: Quotas, path: Seq<int>)
    ensures
        first_breach(v, q) is None && value_at(v, path) is Some ==> within_limits(value_at(v, path)->0, q),
        value_at(v, path) is Some && !within_limits(value_at(v, path)->0, q) ==> first_breach(v, q) is Some,
    decreases path.len(),
{
    if path.len() > 0 && 0 <= path[0] < child_count(v) {
        let j = path[0];
        lemma_breach_iff_value_over_limit(child(v, j), q, path.drop_first());
        if first_breach(v, q) is None {
            match v {
                JsonValue::Array(items) => {
                    lemma_breach_from_none(v, 0, q, j);
                },
                JsonValue::Object(_) => {
                    lemma_breach_from_none(v, 0, q, j);
                },
                _ => {},
            }
        }
        if first_breach(child(v, j), q) is Some {
            match v {
                JsonValue::Array(items) => {
                    if items@.len() <= q.max_array_len {
                        lemma_breach_from_some(v, 0, q, j);
                    }
                },
                JsonValue::Object(_) => {
                    lemma_breach_from_some(v, 0, q, j);
                },
                _ => {},
            }
        }
    }
}

/// `enforce_quota` accepts exactly the arguments whose serialized size is within
/// `max_request_bytes` and in which every string, wherever it stands (any depth, any array
/// position, any member), is at most `max_string_len` bytes and every array at most
/// `max_array_len` long.
pub proof fn lemma_quota_accepts_exactly_values_within_limits(args: JsonValue, serialized_len: nat, q: Quotas)
    ensures
        quota_verdict(args, serialized_len, q) is None <==> (serialized_len <= q.max_request_bytes
            && forall|path: Seq<int>| #[trigger] value_at(args, path) is Some ==> within_limits(value_at(args, path)->0, q)),
{
    if quota_verdict(args, serialized_len, q) is None {
        assert forall|path: Seq<int>| #[trigger] value_at(args, path) is Some implies within_limits(
            value_at(args, path)->0,
            q,
        ) by {
            lemma_breach_iff_value_over_limit(args, q, path);
        }
    }
    if serialized_len <= q.max_request_bytes && first_breach(args, q) is Some {
        let p = lemma_breach_has_path(args, q);
        lemma_breach_iff_value_over_limit(args, q, p);
    }
}

/// A breach is found only at a value over a limit: the path to it.
proof fn lemma_breach_has_path(v: JsonValue, q: Quotas) -> (p: Seq<int>)
    requires
        first_breach(v, q) is Some,
    ensures
        value_at(v, p) is Some,
        !within_limits(value_at(v, p)->0, q),
    decreases v, child_count(v) + 1,
{
    match v {
        JsonValue::Str(s) => seq![],
        JsonValue::Array(items) => {
            if items@.len() > q.max_array_len {
                seq![]
            } else {
                lemma_breach_from_has_path(v, 0, q)
            }
        },
        JsonValue::Object(_) => lemma_breach_from_has_path(v, 0, q),
        _ => seq![],
    }
}

proof fn lemma_breach_from_has_path(v: JsonValue, i: nat, q: Quotas) -> (p: Seq<int>)
    requires
        first_breach_from(v, i, q) is Some,
    ensures
        value_at(v, p) is Some,
        !within_limits(value_at(v, p)->0, q),
    decreases v, child_count(v) - i,
{
    match v {
        JsonValue::Array(items) => {
            assert(decreases_to!(v => items));
            assert(decreases_to!(items => items@));
            assert(decreases_to!(items@ => items@[i as int]));
        },
        JsonValue::Object(members) => {
            assert(decreases_to!(v => members));
            assert(decreases_to!(members => members@));
            assert(decreases_to!(members@ => members@[i as int]));
            assert(decreases_to!(members@[i as int] => members@[i as int].1));
        },
        _ => {},
    }
    if first_breach(child(v, i as int), q) is Some {
        let rest = lemma_breach_has_path(child(v, i as int), q);
        let p = seq![i as int] + rest;
        assert(p.drop_first() =~= rest);
        p
    } else {
        lemma_breach_from_has_path(v, i + 1, q)
    }
}

/// The over-quota error.
fn over_quota(kind: QuotaKind, actual: usize, limit: usize) -> (e: StructuredError)
    ensures
        e@ == over_quota_error(kind, actual as nat, limit as nat),
{
    let mut m: Vec<char> = Vec::new();
    match kind {
        QuotaKind::Request => push_str(&mut m, "request"),
        QuotaKind::Str => push_str(&mut m, "string"),
        QuotaKind::Array => push_str(&mut m, "array"),
        QuotaKind::Batch => push_str(&mut m, "batch"),
    }
    push_str(&mut m, " exceeds the configured quota (");
    push_decimal(&mut m, actual as u64);
    push_str(&mut m, " > ");
    push_decimal(&mut m, limit as u64);
    push_str(&mut m, ")");
    let mut e = StructuredError::from_code(ErrorCode::ValidationFailed, &m);
    let h = crate::text::chars_of("reduce the input size below the server quota and retry");
    e.set_hint(&h);
    match kind {
        QuotaKind::Request => e.add_text_str("kind", "request"),
        QuotaKind::Str => e.add_text_str("kind", "string"),
        QuotaKind::Array => e.add_text_str("kind", "array"),
        QuotaKind::Batch => e.add_text_str("kind", "batch"),
    }
    e.add_number("actual", actual as u64);
    e.add_number("limit", limit as u64);
    e
}

/// Check the strings and arrays inside `value` against their limits.
pub fn check_value(value: &JsonValue, quotas: &Quotas) -> (r: Result<(), StructuredError>)
    ensures
        match first_breach(*value, *quotas) {
            None => r is Ok,
            Some((k, a, l)) => r matches Err(e) && e@ == over_quota_error(k, a, l),
        },
    decreases *value, child_count(*value) + 1,
{
    match value {
        JsonValue::Str(s) => {
            let n = s.as_str().len();
            if n > quotas.max_string_len {
                return Err(over_quota(QuotaKind::Str, n, quotas.max_string_len));
            }
            Ok(())
        },
        JsonValue::Array(items) => {
            if items.len() > quotas.max_array_len {
                return Err(over_quota(QuotaKind::Array, items.len(), quotas.max_array_len));
            }
            check_children(value, 0, quotas)
        },
        JsonValue::Object(_) => check_children(value, 0, quotas),
        _ => Ok(()),
    }
}

/// Check the children of `value` from the `i`-th on.
fn check_children(value: &JsonValue, i: usize, quotas: &Quotas) -> (r: Result<(), StructuredError>)
    requires
        i <= child_count(*value),
    ensures
        match first_breach_from(*value, i as nat, *quotas) {
            None => r is Ok,
            Some((k, a, l)) => r matches Err(e) && e@ == over_quota_error(k, a, l),
        },
    decreases *value, child_count(*value) - i,
{
    match value {
        JsonValue::Array(items) => {
            if i >= items.len() {
                return Ok(());
            }
            proof {
                assert(decreases_to!(*value => *items));
                assert(decreases_to!(*items => items@));
                assert(decreases_to!(items@ => items@[i as int]));
            }
            match check_value(&items[i], quotas) {
                Err(e) => Err(e),
                Ok(()) => check_children(value, i + 1, quotas),
            }
        },
        JsonValue::Object(members) => {
            if i >= members.len() {
                return Ok(());
            }
            proof {
                assert(decreases_to!(*value => *members));
                assert(decreases_to!(*members => members@));
                assert(decreases_to!(members@ => members@[i as int]));
                assert(decreases_to!(members@[i as int] => members@[i as int].1));
            }
            match check_value(&members[i].1, quotas) {
                Err(e) => Err(e),
                Ok(()) => check_children(value, i + 1, quotas),
            }
        },
        _ => Ok(()),
    }
}

/// The quota verdict on a request whose arguments are `args` and serialize to `serialized_len`
/// bytes: the size first, then the strings and arrays inside.
pub open spec fn quota_verdict(args: JsonValue, serialized_len: nat, q: Quotas) -> Option<
    ErrorView,
> {
    if serialized_len > q.max_request_bytes {
        Some(over_quota_error(QuotaKind::Request, serialized_len, q.max_request_bytes as nat))
    } else {
        match first_breach(args, q) {
            Some((k, a, l)) => Some(over_quota_error(k, a, l)),
            None => None,
        }
    }
}

/// The untrusted-input preflight: refuse `args`, whose serialized text is `serialized_len` bytes
/// long, when it breaks a quota.
pub fn enforce_quota(args: &JsonValue, serialized_len: usize, quotas: &Quotas) -> (r: Result<
    (),
    StructuredError,
>)
    ensures
        match quota_verdict(*args, serialized_len as nat, *quotas) {
            None => r is Ok,
            Some(v) => r matches Err(e) && e@ == v,
        },
        r is Ok <==> (serialized_len <= quotas.max_request_bytes && forall|path: Seq<int>|
            #[trigger] value_at(*args, path) is Some ==> within_limits(value_at(*args, path)->0, *quotas)),
{
    proof {
        lemma_quota_accepts_exactly_values_within_limits(*args, serialized_len as nat, *quotas);
    }
    if serialized_len > quotas.max_request_bytes {
        return Err(over_quota(QuotaKind::Request, serialized_len, quotas.max_request_bytes));
    }
    check_value(args, quotas)
}

/// Refuse a bulk document of `count` records when it exceeds `max_batch`.
pub fn enforce_batch_quota(count: usize, quotas: &Quotas) -> (r: Result<(), StructuredError>)
    ensures
        r is Ok <==> count <= quotas.max_batch,
        r matches Err(e) ==> e@ == over_quota_error(
            QuotaKind::Batch,
            count as nat,
            quotas.max_batch as nat,
        ),
{
    if count > quotas.max_batch {
        return Err(over_quota(QuotaKind::Batch, count, quotas.max_batch));
    }
    Ok(())
}

} // verus!
