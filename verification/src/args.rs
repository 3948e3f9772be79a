//! Tool arguments: what a failed parse is reported as, and the hint that names the fields the
//! matched arm of a tool's input accepts.
//!
//! The hint is derived from the published input schema. For a tagged union (`oneOf` arms that all
//! carry a string `const` under one key) the hint lists the fields of the arm the payload selects;
//! otherwise it lists the accepted tag values, or the fields of a plain object input. A nested
//! container (an array of objects, an object, or either behind `anyOf`/`oneOf`/`allOf`) gets a
//! clause of its own. `$ref`s into `$defs` are followed at most [`MAX_REF_HOPS`] times.
use vstd::prelude::*;

use crate::error::{error_of, with_context, with_hint, ContextView, ErrorCode, ErrorView, StructuredError};
use crate::json::{as_str, get, get_str, member, member_index, JsonValue};
use crate::text::{
    chars_eq, chars_less, chars_of, find_from, find_sub, join, lemma_str_lt_irreflexive,
    lemma_str_lt_total, lemma_str_lt_transitive, push_all, push_joined, push_str, starts_with,
    starts_with_str, str_lt, string_of,
};

verus! {

// ------------------------------------------------------------------------------------------
// Parse failures
// ------------------------------------------------------------------------------------------

/// The name that follows the first `p` in `m`, up to the next backtick (or the next `p`), when
/// it is not empty.
pub open spec fn field_after(m: Seq<char>, p: Seq<char>) -> Option<Seq<char>> {
    match find_from(m, p, 0) {
        None => None,
        Some(i) => {
            let after = m.skip(i + p.len());
            let seg = match find_from(after, p, 0) {
                Some(k) => after.take(k),
                None => after,
            };
            let name = match find_from(seg, seq!['`'], 0) {
                Some(b) => seg.take(b),
                None => seg,
            };
            if name.len() > 0 {
                Some(name)
            } else {
                None
            }
        },
    }
}

/// The field a serde message names: after ``unknown field ` ``, else ``missing field ` ``, else
/// ``field ` ``.
pub open spec fn field_in_message(m: Seq<char>) -> Option<Seq<char>> {
    match field_after(m, "unknown field `"@) {
        Some(n) => Some(n),
        None => match field_after(m, "missing field `"@) {
            Some(n) => Some(n),
            None => field_after(m, "field `"@),
        },
    }
}

fn field_after_prefix(m: &Vec<char>, p: &str) -> (r: Option<Vec<char>>)
    ensures
        match r {
            Some(v) => field_after(m@, p@) == Some(v@),
            None => field_after(m@, p@) is None,
        },
{
    let pc = chars_of(p);
    let found = find_sub(m, &pc, 0);
    if found.is_none() {
        return None;
    }
    let i = found.unwrap();
    let plen = pc.len();
    let ml = m.len();
    assert(i + plen <= ml);
    let start = i + plen;
    let after = crate::text::copy_range(m, start, ml);
    assert(after@ =~= m@.skip(i + p@.len()));
    let found2 = find_sub(&after, &pc, 0);
    let seg = if found2.is_some() {
        let k = found2.unwrap();
        let s = crate::text::copy_range(&after, 0, k);
        assert(s@ =~= after@.take(k as int));
        s
    } else {
        after
    };
    let tick = chars_of("`");
    proof {
        reveal_strlit("`");
    }
    assert(tick@ =~= seq!['`']);
    let found3 = find_sub(&seg, &tick, 0);
    let name = if found3.is_some() {
        let b = found3.unwrap();
        let s = crate::text::copy_range(&seg, 0, b);
        assert(s@ =~= seg@.take(b as int));
        s
    } else {
        seg
    };
    if name.len() > 0 {
        Some(name)
    } else {
        None
    }
}

/// The offending field named by a serde error message, if it names one.
pub fn field_from_serde_message(message: &str) -> (r: Option<String>)
    ensures
        match r {
            Some(s) => field_in_message(message@) == Some(s@),
            None => field_in_message(message@) is None,
        },
{
    let m = chars_of(message);
    if let Some(n) = field_after_prefix(&m, "unknown field `") {
        return Some(string_of(&n));
    }
    if let Some(n) = field_after_prefix(&m, "missing field `") {
        return Some(string_of(&n));
    }
    match field_after_prefix(&m, "field `") {
        Some(n) => Some(string_of(&n)),
        None => None,
    }
}

/// The class of a serde failure, by how its message starts.
pub open spec fn kind_of_message(m: Seq<char>) -> Seq<char> {
    if starts_with(m, "unknown field"@) {
        "unknown_field"@
    } else if starts_with(m, "missing field"@) {
        "missing_field"@
    } else if starts_with(m, "invalid type"@) || starts_with(m, "invalid value"@) {
        "type_mismatch"@
    } else {
        "malformed_arguments"@
    }
}

/// Classify a serde failure for the `kind` context entry.
pub fn kind_from_serde_message(message: &str) -> (r: &'static str)
    ensures
        r@ == kind_of_message(message@),
{
    let m = chars_of(message);
    if starts_with_str(&m, "unknown field") {
        "unknown_field"
    } else if starts_with_str(&m, "missing field") {
        "missing_field"
    } else if starts_with_str(&m, "invalid type") || starts_with_str(&m, "invalid value") {
        "type_mismatch"
    } else {
        "malformed_arguments"
    }
}


// ------------------------------------------------------------------------------------------
// Walking a schema
// ------------------------------------------------------------------------------------------

/// The most `$ref` hops followed when resolving a subschema.
pub const MAX_REF_HOPS: usize = 8;

/// The members of the `$defs` object of `schema`, if it has one.
pub open spec fn defs_of(schema: JsonValue) -> Option<Seq<(String, JsonValue)>> {
    match member(schema, "$defs"@) {
        Some(JsonValue::Object(m)) => Some(m@),
        _ => None,
    }
}

/// The view of an optional member list.
pub open spec fn defs_view(defs: Option<&Vec<(String, JsonValue)>>) -> Option<
    Seq<(String, JsonValue)>,
> {
    match defs {
        Some(d) => Some(d@),
        None => None,
    }
}

/// The definition a `"$ref": "#/$defs/NAME"` member of `node` points to, if there is one.
pub open spec fn ref_target(node: JsonValue, defs: Option<Seq<(String, JsonValue)>>) -> Option<
    JsonValue,
> {
    match as_str(member(node, "$ref"@)) {
        Some(r) => if starts_with(r, "#/$defs/"@) {
            match defs {
                Some(d) => match member_index(d, r.skip(("#/$defs/"@).len() as int)) {
                    Some(i) => Some(d[i].1),
                    None => None,
                },
                None => None,
            }
        } else {
            None
        },
        None => None,
    }
}

/// `node` after following at most `n` `$ref` hops.
pub open spec fn resolve_hops(node: JsonValue, defs: Option<Seq<(String, JsonValue)>>, n: nat) -> JsonValue
    decreases n,
{
    if n == 0 {
        node
    } else {
        match ref_target(node, defs) {
            Some(t) => resolve_hops(t, defs, (n - 1) as nat),
            None => node,
        }
    }
}

/// `node` with its `$ref`s followed, at most [`MAX_REF_HOPS`] times.
pub open spec fn resolved(node: JsonValue, defs: Option<Seq<(String, JsonValue)>>) -> JsonValue {
    resolve_hops(node, defs, MAX_REF_HOPS as nat)
}

fn ref_step<'a>(node: &'a JsonValue, defs: Option<&'a Vec<(String, JsonValue)>>) -> (r: Option<
    &'a JsonValue,
>)
    ensures
        match r {
            Some(t) => ref_target(*node, defs_view(defs)) == Some(*t),
            None => ref_target(*node, defs_view(defs)) is None,
        },
{
    let r = match get_str(get(node, "$ref")) {
        Some(r) => r,
        None => return None,
    };
    let rc = chars_of(r.as_str());
    let pre = chars_of("#/$defs/");
    if !crate::text::starts_with_at(&rc, 0, &pre) {
        assert(rc@.subrange(0, rc@.len() as int) =~= rc@);
        return None;
    }
    assert(rc@.subrange(0, rc@.len() as int) =~= rc@);
    let d = match defs {
        Some(d) => d,
        None => return None,
    };
    let name = crate::text::copy_range(&rc, pre.len(), rc.len());
    assert(name@ =~= r@.skip(("#/$defs/"@).len() as int));
    let ns = string_of(&name);
    match crate::json::find_member(d, ns.as_str()) {
        Some(i) => Some(&d[i].1),
        None => None,
    }
}

/// Follow `$ref` hops into `$defs`, at most [`MAX_REF_HOPS`] of them.
pub fn resolve<'a>(node: &'a JsonValue, defs: Option<&'a Vec<(String, JsonValue)>>) -> (r: &'a JsonValue)
    ensures
        *r == resolved(*node, defs_view(defs)),
{
    let mut cur = node;
    let mut k: usize = 0;
    while k < MAX_REF_HOPS
        invariant
            0 <= k <= MAX_REF_HOPS,
            resolve_hops(*cur, defs_view(defs), (MAX_REF_HOPS - k) as nat) == resolved(
                *node,
                defs_view(defs),
            ),
        decreases MAX_REF_HOPS - k,
    {
        match ref_step(cur, defs) {
            Some(t) => {
                cur = t;
            },
            None => {
                return cur;
            },
        }
        k = k + 1;
    }
    cur
}

// ------------------------------------------------------------------------------------------
// Nested containers
// ------------------------------------------------------------------------------------------

/// What the search for a nested container found: the members of an object reached through an
/// array's `items` (`true`) or directly (`false`), nothing, or no answer within the step budget
/// (only a cycle through `$defs` and `anyOf`/`oneOf`/`allOf` exhausts every budget).
pub enum Nest {
    Found(bool, Seq<(String, JsonValue)>),
    NotFound,
    Stuck,
}

/// The combinator keys searched for alternatives, in order.
pub open spec fn alt_key(k: nat) -> Seq<char> {
    if k == 0 {
        "anyOf"@
    } else if k == 1 {
        "oneOf"@
    } else {
        "allOf"@
    }
}

/// The members of `v`, where it is an object.
pub open spec fn object_members(v: Option<JsonValue>) -> Option<Seq<(String, JsonValue)>> {
    match v {
        Some(JsonValue::Object(m)) => Some(m@),
        _ => None,
    }
}

/// The nested container reachable through `sub`, within `fuel` steps.
pub open spec fn nest(sub: JsonValue, defs: Option<Seq<(String, JsonValue)>>, fuel: nat) -> Nest
    decreases fuel,
{
    if fuel == 0 {
        Nest::Stuck
    } else {
        let s = resolved(sub, defs);
        match member(s, "items"@) {
            Some(items) => match object_members(member(resolved(items, defs), "properties"@)) {
                Some(p) => Nest::Found(true, p),
                None => Nest::NotFound,
            },
            None => match object_members(member(s, "properties"@)) {
                Some(p) => Nest::Found(false, p),
                None => nest_alts(s, 0, defs, (fuel - 1) as nat),
            },
        }
    }
}

/// The first nested container found behind the combinator keys of `s` from the `k`-th on.
pub open spec fn nest_alts(s: JsonValue, k: nat, defs: Option<Seq<(String, JsonValue)>>, fuel: nat) -> Nest
    decreases fuel,
{
    if fuel == 0 {
        Nest::Stuck
    } else if k >= 3 {
        Nest::NotFound
    } else {
        let here = match member(s, alt_key(k)) {
            Some(JsonValue::Array(a)) => nest_first(a@, 0, defs, (fuel - 1) as nat),
            _ => Nest::NotFound,
        };
        match here {
            Nest::NotFound => nest_alts(s, k + 1, defs, (fuel - 1) as nat),
            r => r,
        }
    }
}

/// The first nested container found through `alts` from the `i`-th on.
pub open spec fn nest_first(alts: Seq<JsonValue>, i: nat, defs: Option<Seq<(String, JsonValue)>>, fuel: nat) -> Nest
    decreases fuel,
{
    if fuel == 0 {
        Nest::Stuck
    } else if i >= alts.len() {
        Nest::NotFound
    } else {
        match nest(alts[i as int], defs, (fuel - 1) as nat) {
            Nest::NotFound => nest_first(alts, i + 1, defs, (fuel - 1) as nat),
            r => r,
        }
    }
}

/// Whether the search through `sub` ends.
pub open spec fn settles(sub: JsonValue, defs: Option<Seq<(String, JsonValue)>>) -> bool {
    exists|f: nat| !(#[trigger] nest(sub, defs, f) is Stuck)
}

/// The nested container reachable through `sub`, where the search ends.
pub open spec fn nest_of(sub: JsonValue, defs: Option<Seq<(String, JsonValue)>>) -> Nest {
    nest(sub, defs, choose|f: nat| !(#[trigger] nest(sub, defs, f) is Stuck))
}

/// The exec answer `r` reports `n`.
pub open spec fn reports(r: Option<(bool, &Vec<(String, JsonValue)>)>, n: Nest) -> bool {
    match r {
        Some((arr, p)) => n == Nest::Found(arr, p@),
        None => n is NotFound,
    }
}

fn nest_rec<'a>(sub: &'a JsonValue, defs: Option<&'a Vec<(String, JsonValue)>>, Ghost(fuel): Ghost<nat>) -> (r: Option<
    (bool, &'a Vec<(String, JsonValue)>),
>)
    requires
        !(nest(*sub, defs_view(defs), fuel) is Stuck),
    ensures
        reports(r, nest(*sub, defs_view(defs), fuel)),
    decreases fuel,
{
    let s = resolve(sub, defs);
    match get(s, "items") {
        Some(items) => {
            let it = resolve(items, defs);
            return match get(it, "properties") {
                Some(JsonValue::Object(p)) => Some((true, p)),
                _ => None,
            };
        },
        None => {},
    }
    match get(s, "properties") {
        Some(JsonValue::Object(p)) => return Some((false, p)),
        _ => {},
    }
    alts_rec(s, 0, defs, Ghost((fuel - 1) as nat))
}

fn alts_rec<'a>(s: &'a JsonValue, k: usize, defs: Option<&'a Vec<(String, JsonValue)>>, Ghost(fuel): Ghost<nat>) -> (r: Option<
    (bool, &'a Vec<(String, JsonValue)>),
>)
    requires
        !(nest_alts(*s, k as nat, defs_view(defs), fuel) is Stuck),
    ensures
        reports(r, nest_alts(*s, k as nat, defs_view(defs), fuel)),
    decreases fuel,
{
    if k >= 3 {
        return None;
    }
    let key = if k == 0 {
        "anyOf"
    } else if k == 1 {
        "oneOf"
    } else {
        "allOf"
    };
    let here = match get(s, key) {
        Some(JsonValue::Array(a)) => first_rec(a, 0, defs, Ghost((fuel - 1) as nat)),
        _ => None,
    };
    match here {
        Some(x) => Some(x),
        None => alts_rec(s, k + 1, defs, Ghost((fuel - 1) as nat)),
    }
}

fn first_rec<'a>(alts: &'a Vec<JsonValue>, i: usize, defs: Option<&'a Vec<(String, JsonValue)>>, Ghost(fuel): Ghost<nat>) -> (r: Option<
    (bool, &'a Vec<(String, JsonValue)>),
>)
    requires
        i <= alts@.len(),
        !(nest_first(alts@, i as nat, defs_view(defs), fuel) is Stuck),
    ensures
        reports(r, nest_first(alts@, i as nat, defs_view(defs), fuel)),
    decreases fuel,
{
    if i >= alts.len() {
        return None;
    }
    match nest_rec(&alts[i], defs, Ghost((fuel - 1) as nat)) {
        Some(x) => Some(x),
        None => first_rec(alts, i + 1, defs, Ghost((fuel - 1) as nat)),
    }
}

/// The members of the nested container reachable through `sub`, and whether it is reached as
/// an array element.
pub fn nested_container<'a>(sub: &'a JsonValue, defs: Option<&'a Vec<(String, JsonValue)>>) -> (r: Option<
    (bool, &'a Vec<(String, JsonValue)>),
>)
    requires
        settles(*sub, defs_view(defs)),
    ensures
        reports(r, nest_of(*sub, defs_view(defs))),
{
    let ghost f = choose|f: nat| !(#[trigger] nest(*sub, defs_view(defs), f) is Stuck);
    nest_rec(sub, defs, Ghost(f))
}


// ------------------------------------------------------------------------------------------
// Field clauses
// ------------------------------------------------------------------------------------------

/// The keys of `props`, in order.
pub open spec fn keys_of(props: Seq<(String, JsonValue)>) -> Seq<Seq<char>> {
    props.map_values(|e: (String, JsonValue)| e.0@)
}

/// The clause naming the fields of the nested container `n` reached through member `name`.
pub open spec fn nested_clause(name: Seq<char>, n: Nest) -> Seq<char> {
    match n {
        Nest::Found(arr, p) => "; nested `"@ + name + (if arr {
            "[]"@
        } else {
            seq![]
        }) + "` accepts: "@ + join(keys_of(p), ", "@),
        _ => seq![],
    }
}

/// The nested clauses of the first `n` members of `props`.
pub open spec fn nested_clauses(
    props: Seq<(String, JsonValue)>,
    defs: Option<Seq<(String, JsonValue)>>,
    n: nat,
) -> Seq<char>
    decreases n,
{
    if n == 0 || n > props.len() {
        seq![]
    } else {
        nested_clauses(props, defs, (n - 1) as nat) + nested_clause(
            props[n - 1].0@,
            nest_of(props[n - 1].1, defs),
        )
    }
}

/// Whether the nested-container search ends for every member of `props`.
pub open spec fn props_settle(props: Seq<(String, JsonValue)>, defs: Option<Seq<(String, JsonValue)>>) -> bool {
    forall|i: int| 0 <= i < props.len() ==> settles(#[trigger] props[i].1, defs)
}

/// The accepted-field clauses of one container: its own keys, then one clause per nested
/// container reachable from them.
pub open spec fn field_clauses_text(props: Seq<(String, JsonValue)>, defs: Option<Seq<(String, JsonValue)>>) -> Seq<char> {
    "accepted fields: "@ + join(keys_of(props), ", "@) + nested_clauses(props, defs, props.len())
}

fn key_list(props: &Vec<(String, JsonValue)>) -> (r: Vec<String>)
    ensures
        r@.map_values(|s: String| s@) == keys_of(props@),
{
    let mut r: Vec<String> = Vec::new();
    let mut i: usize = 0;
    while i < props.len()
        invariant
            0 <= i <= props@.len(),
            r@.len() == i,
            r@.map_values(|s: String| s@) == keys_of(props@).take(i as int),
        decreases props@.len() - i,
    {
        let ghost prev = r@;
        let k = props[i].0.clone();
        assert(k@ == props@[i as int].0@);
        r.push(k);
        assert(r@ == prev.push(k));
        i = i + 1;
        assert forall|j: int| 0 <= j < i implies #[trigger] r@[j]@ == keys_of(props@)[j] by {
            if j < i - 1 {
                assert(r@[j] == prev[j]);
                assert(prev.map_values(|s: String| s@)[j] == keys_of(props@).take(i - 1)[j]);
            }
        }
        assert(r@.map_values(|s: String| s@) =~= keys_of(props@).take(i as int));
    }
    assert(keys_of(props@).take(props@.len() as int) =~= keys_of(props@));
    r
}

/// Render the accepted-field clauses for one container.
pub fn field_clauses(props: &Vec<(String, JsonValue)>, defs: Option<&Vec<(String, JsonValue)>>) -> (r: String)
    requires
        props_settle(props@, defs_view(defs)),
    ensures
        r@ == field_clauses_text(props@, defs_view(defs)),
{
    let mut out: Vec<char> = Vec::new();
    push_str(&mut out, "accepted fields: ");
    let own = key_list(props);
    push_joined(&mut out, &own, ", ");
    let ghost head = out@;
    let mut i: usize = 0;
    while i < props.len()
        invariant
            0 <= i <= props@.len(),
            props_settle(props@, defs_view(defs)),
            out@ == head + nested_clauses(props@, defs_view(defs), i as nat),
        decreases props@.len() - i,
    {
        let ghost before = out@;
        match nested_container(&props[i].1, defs) {
            Some((arr, nested)) => {
                push_str(&mut out, "; nested `");
                push_str(&mut out, props[i].0.as_str());
                if arr {
                    push_str(&mut out, "[]");
                }
                push_str(&mut out, "` accepts: ");
                let inner = key_list(nested);
                push_joined(&mut out, &inner, ", ");
                proof {
                    if !arr {
                        assert(before + "; nested `"@ + props@[i as int].0@ + "` accepts: "@
                            =~= before + "; nested `"@ + props@[i as int].0@ + seq![]
                            + "` accepts: "@);
                    }
                }
            },
            None => {},
        }
        i = i + 1;
        assert(out@ =~= head + nested_clauses(props@, defs_view(defs), i as nat));
    }
    assert(out@ =~= field_clauses_text(props@, defs_view(defs)));
    string_of(&out)
}


// ------------------------------------------------------------------------------------------
// The discriminant
// ------------------------------------------------------------------------------------------

/// The members of the `properties` object of `arm`.
pub open spec fn props_of(arm: JsonValue) -> Option<Seq<(String, JsonValue)>> {
    object_members(member(arm, "properties"@))
}

/// The string `const` of a subschema.
pub open spec fn const_of(sub: JsonValue) -> Option<Seq<char>> {
    as_str(member(sub, "const"@))
}

/// The string `const` that property `name` of `arm` carries.
pub open spec fn arm_const(arm: JsonValue, name: Seq<char>) -> Option<Seq<char>> {
    match props_of(arm) {
        Some(p) => match member_index(p, name) {
            Some(i) => const_of(p[i].1),
            None => None,
        },
        None => None,
    }
}

/// Whether every arm carries a string `const` under `name`.
pub open spec fn agreed(arms: Seq<JsonValue>, name: Seq<char>) -> bool {
    forall|j: int| 0 <= j < arms.len() ==> #[trigger] arm_const(arms[j], name) is Some
}

/// The first property of `first` from the `i`-th on that carries a string `const` and that
/// every arm agrees on.
pub open spec fn first_agreed(first: Seq<(String, JsonValue)>, arms: Seq<JsonValue>, i: nat) -> Option<Seq<char>>
    decreases first.len() - i,
{
    if i >= first.len() {
        None
    } else if const_of(first[i as int].1) is Some && agreed(arms, first[i as int].0@) {
        Some(first[i as int].0@)
    } else {
        first_agreed(first, arms, i + 1)
    }
}

/// The discriminant property shared by every arm: the first property of the first arm that
/// carries a string `const` in all of them.
pub open spec fn discriminant(arms: Seq<JsonValue>) -> Option<Seq<char>> {
    if arms.len() == 0 {
        None
    } else {
        match props_of(arms[0]) {
            Some(p) => first_agreed(p, arms, 0),
            None => None,
        }
    }
}

fn props_in(arm: &JsonValue) -> (r: Option<&Vec<(String, JsonValue)>>)
    ensures
        match r {
            Some(p) => props_of(*arm) == Some(p@),
            None => props_of(*arm) is None,
        },
{
    match get(arm, "properties") {
        Some(JsonValue::Object(p)) => Some(p),
        _ => None,
    }
}

fn const_in(sub: &JsonValue) -> (r: Option<&String>)
    ensures
        match r {
            Some(c) => const_of(*sub) == Some(c@),
            None => const_of(*sub) is None,
        },
{
    get_str(get(sub, "const"))
}

fn arm_const_in<'a>(arm: &'a JsonValue, name: &str) -> (r: Option<&'a String>)
    ensures
        match r {
            Some(c) => arm_const(*arm, name@) == Some(c@),
            None => arm_const(*arm, name@) is None,
        },
{
    match props_in(arm) {
        Some(p) => match crate::json::find_member(p, name) {
            Some(i) => const_in(&p[i].1),
            None => None,
        },
        None => None,
    }
}

/// The discriminant property name shared by every arm, or `None` when the arms do not agree on
/// one.
pub fn discriminant_of(arms: &Vec<JsonValue>) -> (r: Option<String>)
    ensures
        match r {
            Some(t) => discriminant(arms@) == Some(t@),
            None => discriminant(arms@) is None,
        },
{
    if arms.len() == 0 {
        return None;
    }
    let first = match props_in(&arms[0]) {
        Some(p) => p,
        None => return None,
    };
    let mut i: usize = 0;
    while i < first.len()
        invariant
            0 <= i <= first@.len(),
            arms@.len() > 0,
            props_of(arms@[0]) == Some(first@),
            first_agreed(first@, arms@, i as nat) == discriminant(arms@),
        decreases first@.len() - i,
    {
        let name = first[i].0.as_str();
        if const_in(&first[i].1).is_some() {
            let mut all = true;
            let mut j: usize = 0;
            while j < arms.len()
                invariant
                    0 <= j <= arms@.len(),
                    all ==> forall|m: int| 0 <= m < j ==> #[trigger] arm_const(arms@[m], name@) is Some,
                    !all ==> !agreed(arms@, name@),
                decreases arms@.len() - j,
            {
                if all && arm_const_in(&arms[j], name).is_none() {
                    all = false;
                }
                j = j + 1;
            }
            if all {
                return Some(first[i].0.clone());
            }
        }
        i = i + 1;
    }
    None
}

// ------------------------------------------------------------------------------------------
// The hint index
// ------------------------------------------------------------------------------------------

/// The hint texts of one input type.
#[derive(Debug)]
pub struct HintIndex {
    /// The discriminant property, when the input is a tagged union.
    pub tag: Option<String>,
    /// `(tag value, hint text)` per arm, in arm order; a later arm with the same value wins.
    pub entries: Vec<(String, String)>,
    /// The hint when no arm is selected (or the input is not a union).
    pub fallback: String,
}

/// The `(value, text)` entry of one arm, when it carries a string `const` under `tag`.
pub open spec fn arm_entry(arm: JsonValue, tag: Seq<char>, defs: Option<Seq<(String, JsonValue)>>) -> Option<(Seq<char>, Seq<char>)> {
    match props_of(arm) {
        Some(p) => match member_index(p, tag) {
            Some(i) => match const_of(p[i].1) {
                Some(v) => Some((v, "for `"@ + tag + "` = `"@ + v + "`, "@ + field_clauses_text(p, defs))),
                None => None,
            },
            None => None,
        },
        None => None,
    }
}

/// The entries of the first `n` arms.
pub open spec fn arm_entries(arms: Seq<JsonValue>, tag: Seq<char>, defs: Option<Seq<(String, JsonValue)>>, n: nat) -> Seq<(Seq<char>, Seq<char>)>
    decreases n,
{
    if n == 0 || n > arms.len() {
        seq![]
    } else {
        let e = arm_entries(arms, tag, defs, (n - 1) as nat);
        match arm_entry(arms[n - 1], tag, defs) {
            Some(x) => e.push(x),
            None => e,
        }
    }
}

/// Whether rendering the entry of `arm` ends.
pub open spec fn arm_settles(arm: JsonValue, tag: Seq<char>, defs: Option<Seq<(String, JsonValue)>>) -> bool {
    match props_of(arm) {
        Some(p) => arm_const(arm, tag) is Some ==> props_settle(p, defs),
        None => true,
    }
}

/// The non-empty `oneOf` arms of `schema`.
pub open spec fn arms_of(schema: JsonValue) -> Option<Seq<JsonValue>> {
    match member(schema, "oneOf"@) {
        Some(JsonValue::Array(a)) => if a@.len() > 0 {
            Some(a@)
        } else {
            None
        },
        _ => None,
    }
}

/// Whether building the index of `schema` ends: every nested-container search it makes ends.
pub open spec fn schema_settles(schema: JsonValue) -> bool {
    match arms_of(schema) {
        Some(arms) => match discriminant(arms) {
            Some(tag) => forall|j: int|
                0 <= j < arms.len() ==> arm_settles(#[trigger] arms[j], tag, defs_of(schema)),
            None => true,
        },
        None => match props_of(schema) {
            Some(p) => props_settle(p, defs_of(schema)),
            None => true,
        },
    }
}

/// The discriminant of the index of `schema`.
pub open spec fn index_tag(schema: JsonValue) -> Option<Seq<char>> {
    match arms_of(schema) {
        Some(a) => discriminant(a),
        None => None,
    }
}

/// The entries of the index of `schema`.
pub open spec fn index_entries(schema: JsonValue) -> Seq<(Seq<char>, Seq<char>)> {
    match arms_of(schema) {
        Some(a) => match discriminant(a) {
            Some(t) => arm_entries(a, t, defs_of(schema), a.len()),
            None => seq![],
        },
        None => seq![],
    }
}

/// The tag values of some entries.
pub open spec fn entry_values(es: Seq<(Seq<char>, Seq<char>)>) -> Set<Seq<char>> {
    es.map_values(|e: (Seq<char>, Seq<char>)| e.0).to_set()
}

/// The fallback hint of the index of `schema`, where `values` lists its tag values in
/// increasing order.
pub open spec fn index_fallback(schema: JsonValue, values: Seq<Seq<char>>) -> Seq<char> {
    match arms_of(schema) {
        Some(a) => match discriminant(a) {
            Some(t) => "`"@ + t + "` must be one of: "@ + join(values, ", "@),
            None => "check the argument names against the tool schema"@,
        },
        None => match props_of(schema) {
            Some(p) => field_clauses_text(p, defs_of(schema)),
            None => "this tool takes no arguments"@,
        },
    }
}

/// The views of index entries.
pub open spec fn entries_view(e: Seq<(String, String)>) -> Seq<(Seq<char>, Seq<char>)> {
    e.map_values(|x: (String, String)| (x.0@, x.1@))
}

/// The text of the last entry for `v`.
pub open spec fn entry_for(es: Seq<(Seq<char>, Seq<char>)>, v: Seq<char>) -> Option<Seq<char>>
    decreases es.len(),
{
    if es.len() == 0 {
        None
    } else if es.last().0 == v {
        Some(es.last().1)
    } else {
        entry_for(es.drop_last(), v)
    }
}

fn arm_entry_in(arm: &JsonValue, tag: &String, defs: Option<&Vec<(String, JsonValue)>>) -> (r: Option<(String, String)>)
    requires
        arm_settles(*arm, tag@, defs_view(defs)),
    ensures
        match r {
            Some(e) => arm_entry(*arm, tag@, defs_view(defs)) == Some((e.0@, e.1@)),
            None => arm_entry(*arm, tag@, defs_view(defs)) is None,
        },
{
    let p = match props_in(arm) {
        Some(p) => p,
        None => return None,
    };
    let i = match crate::json::find_member(p, tag.as_str()) {
        Some(i) => i,
        None => return None,
    };
    let v = match const_in(&p[i].1) {
        Some(v) => v,
        None => return None,
    };
    let mut t: Vec<char> = Vec::new();
    push_str(&mut t, "for `");
    push_str(&mut t, tag.as_str());
    push_str(&mut t, "` = `");
    push_str(&mut t, v.as_str());
    push_str(&mut t, "`, ");
    let clauses = field_clauses(p, defs);
    push_str(&mut t, clauses.as_str());
    Some((v.clone(), string_of(&t)))
}

/// Build the hint index of a published input schema.
pub fn build_hint_index(schema: &JsonValue) -> (r: HintIndex)
    requires
        schema_settles(*schema),
    ensures
        match r.tag {
            Some(t) => index_tag(*schema) == Some(t@),
            None => index_tag(*schema) is None,
        },
        entries_view(r.entries@) == index_entries(*schema),
        exists|values: Seq<Seq<char>>|
            #[trigger] crate::cross_repo::strictly_sorted(values) && values.to_set() == entry_values(
                index_entries(*schema),
            ) && r.fallback@ == index_fallback(*schema, values),
{
    let defs = match get(schema, "$defs") {
        Some(JsonValue::Object(m)) => Some(m),
        _ => None,
    };
    assert(defs_view(defs) == defs_of(*schema));
    let arms = match get(schema, "oneOf") {
        Some(JsonValue::Array(a)) => if a.len() > 0 {
            Some(a)
        } else {
            None
        },
        _ => None,
    };
    let ghost empty_values: Seq<Seq<char>> = seq![];
    assert(empty_values.to_set() =~= entry_values(Seq::<(Seq<char>, Seq<char>)>::empty()));
    let arms = match arms {
        None => {
            let fallback = match props_in(schema) {
                Some(p) => field_clauses(p, defs),
                None => string_of(&chars_of("this tool takes no arguments")),
            };
            let r = HintIndex { tag: None, entries: Vec::new(), fallback };
            assert(entries_view(r.entries@) =~= index_entries(*schema));
            assert(crate::cross_repo::strictly_sorted(empty_values));
            return r;
        },
        Some(a) => a,
    };
    let tag = match discriminant_of(arms) {
        None => {
            let r = HintIndex {
                tag: None,
                entries: Vec::new(),
                fallback: string_of(&chars_of("check the argument names against the tool schema")),
            };
            assert(entries_view(r.entries@) =~= index_entries(*schema));
            assert(crate::cross_repo::strictly_sorted(empty_values));
            return r;
        },
        Some(t) => t,
    };
    let mut entries: Vec<(String, String)> = Vec::new();
    let mut values = crate::cross_repo::SortedStrings::new();
    let mut k: usize = 0;
    while k < arms.len()
        invariant
            0 <= k <= arms@.len(),
            arms_of(*schema) == Some(arms@),
            discriminant(arms@) == Some(tag@),
            defs_view(defs) == defs_of(*schema),
            schema_settles(*schema),
            entries_view(entries@) == arm_entries(arms@, tag@, defs_view(defs), k as nat),
            values.members() == entry_values(entries_view(entries@)),
        decreases arms@.len() - k,
    {
        assert(arm_settles(arms@[k as int], tag@, defs_view(defs)));
        match arm_entry_in(&arms[k], &tag, defs) {
            Some(e) => {
                let ghost prev = entries_view(entries@);
                values.insert(e.0.clone());
                entries.push(e);
                proof {
                    let ev = entries_view(entries@);
                    assert(ev =~= prev.push((e.0@, e.1@)));
                    assert(ev.map_values(|x: (Seq<char>, Seq<char>)| x.0) =~= prev.map_values(
                        |x: (Seq<char>, Seq<char>)| x.0,
                    ).push(e.0@));
                    assert(entry_values(ev) =~= entry_values(prev).insert(e.0@)) by {
                        let a = prev.map_values(|x: (Seq<char>, Seq<char>)| x.0);
                        assert(a.push(e.0@).to_set() =~= a.to_set().insert(e.0@)) by {
                            assert forall|x: Seq<char>| a.push(e.0@).to_set().contains(x) implies a.to_set().insert(e.0@).contains(x) by {
                                let m = choose|m: int| 0 <= m < a.push(e.0@).len() && a.push(e.0@)[m] == x;
                                if m < a.len() {
                                    assert(a[m] == x);
                                }
                            }
                            assert forall|x: Seq<char>| a.to_set().insert(e.0@).contains(x) implies a.push(e.0@).to_set().contains(x) by {
                                if x == e.0@ {
                                    assert(a.push(e.0@)[a.len() as int] == x);
                                } else {
                                    let m = choose|m: int| 0 <= m < a.len() && a[m] == x;
                                    assert(a.push(e.0@)[m] == x);
                                }
                            }
                        }
                    }
                }
            },
            None => {},
        }
        k = k + 1;
    }
    let sorted = values.into_vec();
    let mut f: Vec<char> = Vec::new();
    push_str(&mut f, "`");
    push_str(&mut f, tag.as_str());
    push_str(&mut f, "` must be one of: ");
    push_joined(&mut f, &sorted, ", ");
    let r = HintIndex { tag: Some(tag), entries, fallback: string_of(&f) };
    proof {
        let vals = crate::error::strings_view(sorted);
        assert(vals =~= sorted@.map_values(|s: String| s@));
        assert(crate::cross_repo::strictly_sorted(vals));
    }
    r
}

/// How a nested-container search ended, without what it found.
#[derive(Debug, Clone, Copy, PartialEq, Eq, Structural)]
pub enum SearchEnd {
    Found,
    NotFound,
    Stuck,
}

/// The way `n` ended.
pub open spec fn end_of(n: Nest) -> SearchEnd {
    match n {
        Nest::Found(_, _) => SearchEnd::Found,
        Nest::NotFound => SearchEnd::NotFound,
        Nest::Stuck => SearchEnd::Stuck,
    }
}

fn end_within(sub: &JsonValue, defs: Option<&Vec<(String, JsonValue)>>, fuel: u64) -> (r: SearchEnd)
    ensures
        r == end_of(nest(*sub, defs_view(defs), fuel as nat)),
    decreases fuel,
{
    if fuel == 0 {
        return SearchEnd::Stuck;
    }
    let s = resolve(sub, defs);
    match get(s, "items") {
        Some(items) => {
            let it = resolve(items, defs);
            return match get(it, "properties") {
                Some(JsonValue::Object(_)) => SearchEnd::Found,
                _ => SearchEnd::NotFound,
            };
        },
        None => {},
    }
    match get(s, "properties") {
        Some(JsonValue::Object(_)) => return SearchEnd::Found,
        _ => {},
    }
    alts_end_within(s, 0, defs, fuel - 1)
}

fn alts_end_within(s: &JsonValue, k: usize, defs: Option<&Vec<(String, JsonValue)>>, fuel: u64) -> (r: SearchEnd)
    ensures
        r == end_of(nest_alts(*s, k as nat, defs_view(defs), fuel as nat)),
    decreases fuel,
{
    if fuel == 0 {
        return SearchEnd::Stuck;
    }
    if k >= 3 {
        return SearchEnd::NotFound;
    }
    let key = if k == 0 {
        "anyOf"
    } else if k == 1 {
        "oneOf"
    } else {
        "allOf"
    };
    let here = match get(s, key) {
        Some(JsonValue::Array(a)) => first_end_within(a, 0, defs, fuel - 1),
        _ => SearchEnd::NotFound,
    };
    match here {
        SearchEnd::NotFound => alts_end_within(s, k + 1, defs, fuel - 1),
        r => r,
    }
}

fn first_end_within(alts: &Vec<JsonValue>, i: usize, defs: Option<&Vec<(String, JsonValue)>>, fuel: u64) -> (r: SearchEnd)
    requires
        i <= alts@.len(),
    ensures
        r == end_of(nest_first(alts@, i as nat, defs_view(defs), fuel as nat)),
    decreases fuel,
{
    if fuel == 0 {
        return SearchEnd::Stuck;
    }
    if i >= alts.len() {
        return SearchEnd::NotFound;
    }
    match end_within(&alts[i], defs, fuel - 1) {
        SearchEnd::NotFound => first_end_within(alts, i + 1, defs, fuel - 1),
        r => r,
    }
}

/// Whether the nested-container search of every property of `props` ends within `fuel` steps.
pub open spec fn props_end_within(props: Seq<(String, JsonValue)>, defs: Option<Seq<(String, JsonValue)>>, fuel: nat) -> bool {
    forall|i: int| 0 <= i < props.len() ==> !(#[trigger] nest(props[i].1, defs, fuel) is Stuck)
}

/// Whether every nested-container search made while indexing `schema` (for every arm, whether
/// or not it carries the discriminant) ends within `fuel` steps.
pub open spec fn schema_ends_within(schema: JsonValue, fuel: nat) -> bool {
    match arms_of(schema) {
        Some(arms) => forall|j: int| 0 <= j < arms.len() ==> match props_of(#[trigger] arms[j]) {
            Some(p) => props_end_within(p, defs_of(schema), fuel),
            None => true,
        },
        None => match props_of(schema) {
            Some(p) => props_end_within(p, defs_of(schema), fuel),
            None => true,
        },
    }
}

/// A search that ends within a budget ends.
pub proof fn lemma_ends_within_settles(schema: JsonValue, fuel: nat)
    requires
        schema_ends_within(schema, fuel),
    ensures
        schema_settles(schema),
{
    match arms_of(schema) {
        Some(arms) => {
            if let Some(tag) = discriminant(arms) {
                assert forall|j: int| 0 <= j < arms.len() implies arm_settles(
                    #[trigger] arms[j],
                    tag,
                    defs_of(schema),
                ) by {
                    if let Some(p) = props_of(arms[j]) {
                        assert forall|i: int| 0 <= i < p.len() implies settles(
                            #[trigger] p[i].1,
                            defs_of(schema),
                        ) by {
                            assert(!(nest(p[i].1, defs_of(schema), fuel) is Stuck));
                        }
                    }
                }
            }
        },
        None => {
            if let Some(p) = props_of(schema) {
                assert forall|i: int| 0 <= i < p.len() implies settles(#[trigger] p[i].1, defs_of(schema)) by {
                    assert(!(nest(p[i].1, defs_of(schema), fuel) is Stuck));
                }
            }
        },
    }
}

fn props_end_within_exec(props: &Vec<(String, JsonValue)>, defs: Option<&Vec<(String, JsonValue)>>, fuel: u64) -> (b: bool)
    ensures
        b == props_end_within(props@, defs_view(defs), fuel as nat),
{
    let mut i: usize = 0;
    while i < props.len()
        invariant
            0 <= i <= props@.len(),
            forall|j: int| 0 <= j < i ==> !(#[trigger] nest(props@[j].1, defs_view(defs), fuel as nat) is Stuck),
        decreases props@.len() - i,
    {
        if end_within(&props[i].1, defs, fuel) == SearchEnd::Stuck {
            assert(nest(props@[i as int].1, defs_view(defs), fuel as nat) is Stuck);
            return false;
        }
        i = i + 1;
    }
    true
}

/// The number of JSON values in `v`, itself included.
pub open spec fn json_nodes(v: JsonValue) -> nat
    decreases v, crate::quota::child_count(v) + 1,
{
    1 + json_nodes_from(v, 0)
}

/// The number of JSON values in the children of `v` from the `i`-th on.
pub open spec fn json_nodes_from(v: JsonValue, i: nat) -> nat
    decreases v, crate::quota::child_count(v) - i,
{
    if i >= crate::quota::child_count(v) {
        0
    } else {
        proof {
            match v {
                JsonValue::Array(items) => {
                    assert(decreases_to!(v => items));
                    assert(decreases_to!(items => items@));
                    assert(decreases_to!(items@ => items@[i as int]));
                },
                JsonValue::Object(members) => {
                    assert(decreases_to!(v => members));
                    assert(decreases_to!(members => members@));
                    assert(decreases_to!(members@ => members@[i as int]));
                    assert(decreases_to!(members@[i as int] => members@[i as int].1));
                },
                _ => {},
            }
        }
        json_nodes(crate::quota::child(v, i as int)) + json_nodes_from(v, i + 1)
    }
}

/// `n`, capped at `u64::MAX`.
pub open spec fn capped(n: nat) -> nat {
    if n > u64::MAX {
        u64::MAX as nat
    } else {
        n
    }
}

/// The step budget of each nested-container search made while indexing `schema`: three steps
/// per JSON value of the schema, and three more.
pub open spec fn index_budget(schema: JsonValue) -> nat {
    capped(3 * json_nodes(schema) + 3)
}

fn count_nodes(v: &JsonValue) -> (n: u64)
    ensures
        n == capped(json_nodes(*v)),
    decreases *v, crate::quota::child_count(*v) + 1,
{
    let rest = count_nodes_from(v, 0);
    1u64.saturating_add(rest)
}

fn count_nodes_from(v: &JsonValue, i: usize) -> (n: u64)
    requires
        i <= crate::quota::child_count(*v),
    ensures
        n == capped(json_nodes_from(*v, i as nat)),
    decreases *v, crate::quota::child_count(*v) - i,
{
    match v {
        JsonValue::Array(items) => {
            if i >= items.len() {
                return 0;
            }
            proof {
                assert(decreases_to!(*v => *items));
                assert(decreases_to!(*items => items@));
                assert(decreases_to!(items@ => items@[i as int]));
            }
            let a = count_nodes(&items[i]);
            let b = count_nodes_from(v, i + 1);
            a.saturating_add(b)
        },
        JsonValue::Object(members) => {
            if i >= members.len() {
                return 0;
            }
            proof {
                assert(decreases_to!(*v => *members));
                assert(decreases_to!(*members => members@));
                assert(decreases_to!(members@ => members@[i as int]));
                assert(decreases_to!(members@[i as int] => members@[i as int].1));
            }
            let a = count_nodes(&members[i].1);
            let b = count_nodes_from(v, i + 1);
            a.saturating_add(b)
        },
        _ => 0,
    }
}

/// The step budget of `schema`'s searches.
fn budget_of(schema: &JsonValue) -> (b: u64)
    ensures
        b == index_budget(*schema),
{
    let n = count_nodes(schema);
    n.saturating_add(n).saturating_add(n).saturating_add(3)
}

/// Whether every nested-container search of the index of `schema` ends within `fuel` steps.
pub fn schema_settles_within(schema: &JsonValue, fuel: u64) -> (b: bool)
    ensures
        b == schema_ends_within(*schema, fuel as nat),
{
    let defs = match get(schema, "$defs") {
        Some(JsonValue::Object(m)) => Some(m),
        _ => None,
    };
    assert(defs_view(defs) == defs_of(*schema));
    match get(schema, "oneOf") {
        Some(JsonValue::Array(arms)) => if arms.len() > 0 {
            assert(arms_of(*schema) == Some(arms@));
            let mut j: usize = 0;
            while j < arms.len()
                invariant
                    0 <= j <= arms@.len(),
                    defs_view(defs) == defs_of(*schema),
                    arms_of(*schema) == Some(arms@),
                    forall|x: int| 0 <= x < j ==> match props_of(#[trigger] arms@[x]) {
                        Some(p) => props_end_within(p, defs_of(*schema), fuel as nat),
                        None => true,
                    },
                decreases arms@.len() - j,
            {
                match props_in(&arms[j]) {
                    Some(p) => {
                        if !props_end_within_exec(p, defs, fuel) {
                            assert(!match props_of(arms@[j as int]) {
                                Some(p) => props_end_within(p, defs_of(*schema), fuel as nat),
                                None => true,
                            });
                            return false;
                        }
                    },
                    None => {},
                }
                j = j + 1;
            }
            return true;
        } else {
            assert(arms_of(*schema) is None);
        },
        _ => {
            assert(arms_of(*schema) is None);
        },
    }
    match props_in(schema) {
        Some(p) => props_end_within_exec(p, defs, fuel),
        None => true,
    }
}

/// The hint index of `schema`, when every nested-container search it makes ends within
/// [`index_budget`] steps, three per JSON value of the schema (a schema whose `$defs` refer to
/// each other in a cycle never ends); `None` otherwise.
pub fn hint_index_of(schema: &JsonValue) -> (r: Option<HintIndex>)
    ensures
        r is None <==> !schema_ends_within(*schema, index_budget(*schema)),
        r matches Some(ix) ==> (match ix.tag {
            Some(t) => index_tag(*schema) == Some(t@),
            None => index_tag(*schema) is None,
        }) && entries_view(ix.entries@) == index_entries(*schema) && exists|values: Seq<Seq<char>>|
            #[trigger] crate::cross_repo::strictly_sorted(values) && values.to_set() == entry_values(
                index_entries(*schema),
            ) && ix.fallback@ == index_fallback(*schema, values),
{
    let budget = budget_of(schema);
    if schema_settles_within(schema, budget) {
        proof {
            lemma_ends_within_settles(*schema, budget as nat);
        }
        Some(build_hint_index(schema))
    } else {
        None
    }
}

/// The hint text of an index for the payload `raw`.
pub open spec fn hint_text(tag: Option<Seq<char>>, es: Seq<(Seq<char>, Seq<char>)>, fallback: Seq<char>, raw: JsonValue) -> Seq<char> {
    match tag {
        Some(t) => match as_str(member(raw, t)) {
            Some(v) => match entry_for(es, v) {
                Some(text) => text,
                None => fallback,
            },
            None => fallback,
        },
        None => fallback,
    }
}

impl HintIndex {
    /// The hint text for the payload `raw`: the matched arm's fields, else the fallback.
    pub fn hint_for(&self, raw: &JsonValue) -> (r: &str)
        ensures
            r@ == hint_text(
                match self.tag {
                    Some(t) => Some(t@),
                    None => None,
                },
                entries_view(self.entries@),
                self.fallback@,
                *raw,
            ),
    {
        let t = match &self.tag {
            Some(t) => t,
            None => return self.fallback.as_str(),
        };
        let v = match get_str(get(raw, t.as_str())) {
            Some(v) => v,
            None => return self.fallback.as_str(),
        };
        let vc = chars_of(v.as_str());
        let mut i: usize = self.entries.len();
        assert(entries_view(self.entries@).take(i as int) =~= entries_view(self.entries@));
        while i > 0
            invariant
                0 <= i <= self.entries@.len(),
                vc@ == v@,
                self.tag == Some(*t),
                as_str(member(*raw, t@)) == Some(v@),
                entry_for(entries_view(self.entries@).take(i as int), v@) == entry_for(
                    entries_view(self.entries@),
                    v@,
                ),
            decreases i,
        {
            let ghost es = entries_view(self.entries@).take(i as int);
            assert(es.drop_last() =~= entries_view(self.entries@).take(i - 1));
            let kc = chars_of(self.entries[i - 1].0.as_str());
            if chars_eq(&kc, &vc) {
                assert(es.last() == (self.entries@[i - 1].0@, self.entries@[i - 1].1@));
                assert(entry_for(es, v@) == Some(self.entries@[i - 1].1@));
                return self.entries[i - 1].1.as_str();
            }
            i = i - 1;
        }
        assert(entries_view(self.entries@).take(0) =~= Seq::<(Seq<char>, Seq<char>)>::empty());
        self.fallback.as_str()
    }
}

/// The refusal of a request whose arguments could not be scanned to a duplicate-key verdict.
pub open spec fn indeterminate_frame_view() -> ErrorView {
    with_context(
        with_hint(
            error_of(
                ErrorCode::ValidationFailed,
                "tool arguments could not be unambiguously scanned; refusing to execute"@,
            ),
            "the request bytes could not be tokenized to a duplicate-key decision (malformed JSON, non-UTF-8, or nesting past the parser's depth limit). Send a well-formed request."@,
        ),
        "kind"@,
        ContextView::Text("indeterminate_frame"@),
    )
}

/// The refusal of a request that reached the tools without being scanned at all: a server-side
/// fault, refused rather than trusted.
pub open spec fn unscanned_frame_view() -> ErrorView {
    with_context(
        with_hint(
            error_of(
                ErrorCode::InternalError,
                "tool arguments were not scanned for wire ambiguity; refusing to execute"@,
            ),
            "this is a SERVER-side wiring fault, not a malformed request: the frame reached the tool boundary without passing the duplicate-key scan, and an unscanned frame is refused rather than trusted. Resending the same request will not help — report it against the server."@,
        ),
        "kind"@,
        ContextView::Text("unscanned_frame"@),
    )
}

/// The in-band refusal of arguments that could not be scanned to a verdict.
pub fn indeterminate_frame_error() -> (e: StructuredError)
    ensures
        e@ == indeterminate_frame_view(),
{
    let m = chars_of("tool arguments could not be unambiguously scanned; refusing to execute");
    let mut e = StructuredError::from_code(ErrorCode::ValidationFailed, &m);
    let h = chars_of(
        "the request bytes could not be tokenized to a duplicate-key decision (malformed JSON, non-UTF-8, or nesting past the parser's depth limit). Send a well-formed request.",
    );
    e.set_hint(&h);
    e.add_text_str("kind", "indeterminate_frame");
    e
}

/// The in-band refusal of arguments that were never scanned.
pub fn unscanned_frame_error() -> (e: StructuredError)
    ensures
        e@ == unscanned_frame_view(),
{
    let m = chars_of("tool arguments were not scanned for wire ambiguity; refusing to execute");
    let mut e = StructuredError::from_code(ErrorCode::InternalError, &m);
    let h = chars_of(
        "this is a SERVER-side wiring fault, not a malformed request: the frame reached the tool boundary without passing the duplicate-key scan, and an unscanned frame is refused rather than trusted. Resending the same request will not help — report it against the server.",
    );
    e.set_hint(&h);
    e.add_text_str("kind", "unscanned_frame");
    e
}

/// The in-band refusal of arguments that do not deserialize: `invalid tool arguments: {message}`
/// with the hint `check the argument names against the tool schema; {hint}`, the `kind` of the
/// failure and, when the message names one, the offending `field`. The echoed message and field
/// are cut to the echo bound of [`clip_header_of`].
pub open spec fn args_error_view(raw: Seq<char>, hint: Seq<char>) -> ErrorView {
    let base = with_context(
        with_hint(
            error_of(
                ErrorCode::ValidationFailed,
                "invalid tool arguments: "@ + crate::markdown::parser::clip_header_of(raw),
            ),
            "check the argument names against the tool schema; "@ + hint,
        ),
        "kind"@,
        ContextView::Text(kind_of_message(raw)),
    );
    match field_in_message(raw) {
        Some(f) => with_context(base, "field"@, ContextView::Text(crate::markdown::parser::clip_header_of(f))),
        None => base,
    }
}

/// Map the text of a deserialization failure, `raw`, to the in-band structured error.
pub fn args_error(raw: &str, hint: &str) -> (e: StructuredError)
    ensures
        e@ == args_error_view(raw@, hint@),
{
    let r = chars_of(raw);
    let clipped = crate::markdown::parser::clip_header(&r);
    let mut m: Vec<char> = Vec::new();
    push_str(&mut m, "invalid tool arguments: ");
    push_all(&mut m, &clipped);
    let mut e = StructuredError::from_code(ErrorCode::ValidationFailed, &m);
    let mut h: Vec<char> = Vec::new();
    push_str(&mut h, "check the argument names against the tool schema; ");
    push_str(&mut h, hint);
    e.set_hint(&h);
    let kind = kind_from_serde_message(raw);
    e.add_text_str("kind", kind);
    if let Some(field) = field_from_serde_message(raw) {
        let f = chars_of(field.as_str());
        let fc = crate::markdown::parser::clip_header(&f);
        e.add_text("field", &fc);
    }
    e
}

/// The in-band refusal of a request whose `params` carry a duplicate JSON key `key`, at the JSON
/// pointer `path`; both echoes cut to the echo bound of [`clip_header_of`].
pub open spec fn duplicate_key_view(key: Seq<char>, path: Seq<char>) -> ErrorView {
    let k = crate::markdown::parser::clip_header_of(key);
    with_context(
        with_context(
            with_context(
                with_hint(
                    error_of(
                        ErrorCode::ValidationFailed,
                        "invalid tool arguments: duplicate JSON key `"@ + k + "` in the request `params`"@,
                    ),
                    "a JSON object key may appear at most once; `"@ + k
                        + "` appears more than once inside the request, so the request was AMBIGUOUS and was NOT executed. Send each key exactly once and resend."@,
                ),
                "kind"@,
                ContextView::Text("duplicate_key"@),
            ),
            "field"@,
            ContextView::Text(k),
        ),
        "path"@,
        ContextView::Text(crate::markdown::parser::clip_header_of(path)),
    )
}

/// The in-band refusal of a request that repeats the JSON key `key` (at `path`).
pub fn duplicate_key_error(key: &str, path: &str) -> (e: StructuredError)
    ensures
        e@ == duplicate_key_view(key@, path@),
{
    let kc = crate::markdown::parser::clip_header(&chars_of(key));
    let pc = crate::markdown::parser::clip_header(&chars_of(path));
    let mut m: Vec<char> = Vec::new();
    push_str(&mut m, "invalid tool arguments: duplicate JSON key `");
    push_all(&mut m, &kc);
    push_str(&mut m, "` in the request `params`");
    let mut e = StructuredError::from_code(ErrorCode::ValidationFailed, &m);
    let mut h: Vec<char> = Vec::new();
    push_str(&mut h, "a JSON object key may appear at most once; `");
    push_all(&mut h, &kc);
    push_str(
        &mut h,
        "` appears more than once inside the request, so the request was AMBIGUOUS and was NOT executed. Send each key exactly once and resend.",
    );
    e.set_hint(&h);
    e.add_text_str("kind", "duplicate_key");
    e.add_text("field", &kc);
    e.add_text("path", &pc);
    e
}

} // verus!



