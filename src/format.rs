use vstd::prelude::*;
use crate::schema::{Type, TypeDefinition, lookup, find_property};
use crate::FormatError;
use crate::value::{JsonValue, canon, canon_member, canon_members, json_parse, json_quoted, parse_json, sep_after, write_canonical};

verus! {

/// Whether `v` is of the JSON type `t`; an integer needs a value that fits in `i64`.
pub open spec fn has_type(v: JsonValue, t: Type) -> bool {
    match t {
        Type::Object => v is Object,
        Type::Array => v is Array,
        Type::String => v is String,
        Type::Number => v is Number,
        Type::Integer => v is Number && v->Number_0.is_i64,
        Type::Boolean => v is Bool,
        Type::Null => v is Null,
    }
}

/// The text of an optional decoration; nothing where it is absent.
pub open spec fn opt_text(s: Option<String>) -> Seq<char> {
    match s {
        Some(t) => t@,
        None => Seq::empty(),
    }
}

/// The output for `v` rendered against the schema node `td`.
pub open spec fn rendered(v: JsonValue, td: TypeDefinition) -> Seq<char>
    decreases v, 1int, 0int,
{
    if !has_type(v, td.value_type) {
        canon(v)
    } else {
        let body = match (v, td.properties) {
            (JsonValue::Object(members), Some(props)) => seq!['{'] + rendered_members(
                v,
                props@,
                members@.len(),
            ) + seq!['}'],
            _ => canon(v),
        };
        opt_text(td.prefix) + body + opt_text(td.suffix)
    }
}

/// The output for member `i` of `n`, with key `key` and value text `text`, where
/// the key has no schema node.
pub open spec fn plain_member(key: Seq<char>, text: Seq<char>, i: nat, n: nat) -> Seq<char> {
    json_quoted(key) + seq![':'] + text + sep_after(i, n)
}

/// The output for member `i` of `n` whose key has the schema node `child`,
/// given the text rendered for its value.
pub open spec fn decorated_member(
    key: Seq<char>,
    child: TypeDefinition,
    text: Seq<char>,
    i: nat,
    n: nat,
) -> Seq<char> {
    opt_text(child.key_prefix) + json_quoted(key) + seq![':'] + text + sep_after(i, n) + opt_text(
        child.comma_suffix,
    )
}

/// The output for the first `k` members of the object `v`, whose keys are
/// looked up in `props`.
pub open spec fn rendered_members(v: JsonValue, props: Seq<(String, TypeDefinition)>, k: nat) -> Seq<char>
    decreases v, 0int, k,
{
    match v {
        JsonValue::Object(members) => if k == 0 || k > members@.len() {
            Seq::empty()
        } else {
            let i = (k - 1) as nat;
            let key = members@[i as int].0@;
            let val = members@[i as int].1;
            let n = members@.len();
            rendered_members(v, props, i) + match lookup(props, key) {
                Some(child) => decorated_member(key, child, rendered(val, child), i, n),
                None => plain_member(key, canon(val), i, n),
            }
        },
        _ => Seq::empty(),
    }
}

/// Whether `v` is of the JSON type `value_type`.
pub fn is_match(v: &JsonValue, value_type: Type) -> (r: bool)
    ensures
        r == has_type(*v, value_type),
{
    match value_type {
        Type::Object => matches!(v, JsonValue::Object(_)),
        Type::Array => matches!(v, JsonValue::Array(_)),
        Type::String => matches!(v, JsonValue::String(_)),
        Type::Number => matches!(v, JsonValue::Number(_)),
        Type::Integer => match v {
            JsonValue::Number(n) => n.is_i64,
            _ => false,
        },
        Type::Boolean => matches!(v, JsonValue::Bool(_)),
        Type::Null => matches!(v, JsonValue::Null),
    }
}

fn append_opt(out: &mut String, s: &Option<String>)
    ensures
        final(out)@ == old(out)@ + opt_text(*s),
{
    match s {
        Some(t) => out.append(t.as_str()),
        None => {
            assert(out@ =~= old(out)@ + opt_text(*s));
        },
    }
}

/// Appends to `output` the rendering of `v` against the schema node `type_definition`.
pub fn custom_format_json_recursively(
    v: &JsonValue,
    output: &mut String,
    type_definition: &TypeDefinition,
)
    ensures
        final(output)@ == old(output)@ + rendered(*v, *type_definition),
    decreases v,
{
    if !is_match(v, type_definition.value_type) {
        write_canonical(v, output);
        return;
    }
    let ghost start = output@;
    append_opt(output, &type_definition.prefix);
    let ghost after_prefix = output@;
    match (v, &type_definition.properties) {
        (JsonValue::Object(members), Some(props)) => {
            proof {
                reveal_strlit("{");
                reveal_strlit("}");
            }
            output.append("{");
            assert(output@ =~= after_prefix + seq!['{'] + rendered_members(*v, props@, 0));
            let n = members.len();
            let mut i: usize = 0;
            while i < n
                invariant
                    i <= n,
                    n == members@.len(),
                    *v == JsonValue::Object(*members),
                    output@ == after_prefix + seq!['{'] + rendered_members(*v, props@, i as nat),
                decreases n - i,
            {
                proof {
                    reveal_strlit(",");
                    reveal_strlit(":");
                }
                let ghost before = output@;
                let key = &members[i].0;
                let value = &members[i].1;
                proof {
                    crate::value::lemma_member_decreases(*v, i as int);
                }
                match find_property(props, key) {
                    Some(j) => {
                        let child = &props[j].1;
                        append_opt(output, &child.key_prefix);
                        output.append(crate::value::quote_str(key.as_str()).as_str());
                        output.append(":");
                        custom_format_json_recursively(value, output, child);
                        if i + 1 < n {
                            output.append(",");
                        }
                        append_opt(output, &child.comma_suffix);
                        assert(output@ =~= before + decorated_member(
                            key@,
                            *child,
                            rendered(*value, *child),
                            i as nat,
                            n as nat,
                        ));
                    },
                    None => {
                        output.append(crate::value::quote_str(key.as_str()).as_str());
                        output.append(":");
                        write_canonical(value, output);
                        if i + 1 < n {
                            output.append(",");
                        }
                        assert(output@ =~= before + plain_member(key@, canon(*value), i as nat, n as nat));
                    },
                }
                assert(output@ =~= before + match lookup(props@, key@) {
                    Some(child) => decorated_member(key@, child, rendered(*value, child), i as nat, n as nat),
                    None => plain_member(key@, canon(*value), i as nat, n as nat),
                });
                i = i + 1;
                assert(output@ =~= after_prefix + seq!['{'] + rendered_members(*v, props@, i as nat));
            }
            output.append("}");
        },
        _ => {
            write_canonical(v, output);
        },
    }
    append_opt(output, &type_definition.suffix);
    assert(output@ =~= start + rendered(*v, *type_definition));
}

/// Parses the JSON text `a` and renders it against `type_definition`.
pub fn custom_format_json(a: &str, type_definition: &TypeDefinition) -> (r: Result<String, FormatError>)
    ensures
        match r {
            Ok(out) => json_parse(a@) matches Some(v) && out@ == rendered(v, *type_definition),
            Err(e) => e == FormatError::JsonSyntax && json_parse(a@) is None,
        },
{
    match parse_json(a) {
        Ok(json) => {
            let mut ret = String::new();
            custom_format_json_recursively(&json, &mut ret, type_definition);
            assert(ret@ =~= rendered(json, *type_definition));
            Ok(ret)
        },
        Err(_) => Err(FormatError::JsonSyntax),
    }
}

/// Whether no node of the schema tree `td` carries decoration text.
pub open spec fn undecorated(td: TypeDefinition) -> bool
    decreases td, 1int, 0int,
{
    &&& opt_text(td.prefix).len() == 0
    &&& opt_text(td.suffix).len() == 0
    &&& opt_text(td.key_prefix).len() == 0
    &&& opt_text(td.comma_suffix).len() == 0
    &&& match td.properties {
        Some(ps) => properties_undecorated(td, ps@.len()),
        None => true,
    }
}

/// Whether the first `k` child nodes of `td` are undecorated.
pub open spec fn properties_undecorated(td: TypeDefinition, k: nat) -> bool
    decreases td, 0int, k,
{
    match td.properties {
        Some(ps) => k == 0 || k > ps@.len() || (properties_undecorated(td, (k - 1) as nat)
            && undecorated(ps@[k - 1].1)),
        None => true,
    }
}

proof fn lemma_properties_undecorated_each(td: TypeDefinition, k: nat, j: int)
    requires
        td.properties matches Some(ps) && k <= ps@.len(),
        properties_undecorated(td, k),
        0 <= j < k,
    ensures
        undecorated(td.properties->Some_0@[j].1),
    decreases k,
{
    if j < k - 1 {
        lemma_properties_undecorated_each(td, (k - 1) as nat, j);
    }
}

proof fn lemma_lookup_member(props: Seq<(String, TypeDefinition)>, key: Seq<char>)
    ensures
        lookup(props, key) matches Some(c) ==> exists|j: int| 0 <= j < props.len() && props[j].1 == c,
    decreases props.len(),
{
    if props.len() > 0 && props[0].0@ != key {
        lemma_lookup_member(props.drop_first(), key);
        if let Some(c) = lookup(props, key) {
            let j = choose|j: int| 0 <= j < props.drop_first().len() && props.drop_first()[j].1 == c;
            assert(props[j + 1].1 == c);
        }
    }
}

/// A value whose JSON type differs from the node's type is written as its
/// canonical JSON text, whatever decorations the node holds.
pub proof fn lemma_mismatch_passthrough(v: JsonValue, td: TypeDefinition)
    requires
        !has_type(v, td.value_type),
    ensures
        rendered(v, td) == canon(v),
{
}

/// Against a schema tree without decoration text, the output is the
/// canonical JSON text of the document.
pub proof fn lemma_undecorated_is_canonical(v: JsonValue, td: TypeDefinition)
    requires
        undecorated(td),
    ensures
        rendered(v, td) == canon(v),
    decreases v, 1int, 0int,
{
    if has_type(v, td.value_type) {
        match (v, td.properties) {
            (JsonValue::Object(members), Some(props)) => {
                lemma_undecorated_members(v, td, members@.len());
                assert(rendered(v, td) =~= canon(v));
            },
            _ => {
                assert(rendered(v, td) =~= canon(v));
            },
        }
    }
}

proof fn lemma_undecorated_members(v: JsonValue, td: TypeDefinition, k: nat)
    requires
        undecorated(td),
        td.properties is Some,
        v is Object,
        k <= v->Object_0@.len(),
    ensures
        rendered_members(v, td.properties->Some_0@, k) == canon_members(v, k),
    decreases v, 0int, k,
{
    if k > 0 {
        let members = v->Object_0;
        let ps = td.properties->Some_0@;
        let i = (k - 1) as nat;
        let key = members@[i as int].0@;
        let val = members@[i as int].1;
        let n = members@.len();
        lemma_undecorated_members(v, td, i);
        lemma_lookup_member(ps, key);
        match lookup(ps, key) {
            Some(child) => {
                let j = choose|j: int| 0 <= j < ps.len() && ps[j].1 == child;
                lemma_properties_undecorated_each(td, ps.len(), j);
                lemma_undecorated_is_canonical(val, child);
                assert(decorated_member(key, child, rendered(val, child), i, n)
                    =~= canon_member(key, canon(val)) + crate::value::sep_after(i, n));
            },
            None => {
                assert(plain_member(key, canon(val), i, n) =~= canon_member(key, canon(val))
                    + crate::value::sep_after(i, n));
            },
        }
        assert(rendered_members(v, ps, k) =~= canon_members(v, k));
    }
}

/// An object member whose key has no schema node is written as its quoted key,
/// a colon and the canonical text of its value, followed only by the plain
/// separator: no key prefix and no comma suffix of any sibling node.
pub proof fn lemma_unmatched_key_passthrough(v: JsonValue, props: Seq<(String, TypeDefinition)>, i: nat)
    requires
        v is Object,
        i < v->Object_0@.len(),
        lookup(props, v->Object_0@[i as int].0@) is None,
    ensures
        rendered_members(v, props, i + 1) == rendered_members(v, props, i) + json_quoted(
            v->Object_0@[i as int].0@,
        ) + seq![':'] + canon(v->Object_0@[i as int].1) + sep_after(i, v->Object_0@.len()),
{
    let m = v->Object_0@;
    assert(rendered_members(v, props, i + 1) =~= rendered_members(v, props, i) + json_quoted(
        m[i as int].0@,
    ) + seq![':'] + canon(m[i as int].1) + sep_after(i, m.len()));
}

/// Every value of type integer is of type number; a number that does not fit
/// in `i64` (such as a fraction) is a number and not an integer.
pub proof fn lemma_integer_is_number(v: JsonValue)
    ensures
        has_type(v, Type::Integer) ==> has_type(v, Type::Number),
        (v is Number && !v->Number_0.is_i64) ==> has_type(v, Type::Number) && !has_type(
            v,
            Type::Integer,
        ),
{
}

} // verus!
