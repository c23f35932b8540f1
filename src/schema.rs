use vstd::prelude::*;
use crate::FormatError;
use crate::value::{JsonValue, json_parse, lemma_member_decreases, parse_json};

verus! {

/// The JSON type that a schema node asks for.
#[derive(Debug, Clone, Copy, PartialEq, Eq)]
pub enum Type {
    Object,
    Array,
    String,
    Number,
    Integer,
    Boolean,
    Null,
}

/// One node of the schema tree: the required type and the decorations around it.
#[derive(Debug, PartialEq)]
pub struct TypeDefinition {
    pub value_type: Type,
    /// Child nodes of an object, by property name.
    pub properties: Option<Vec<(String, TypeDefinition)>>,
    /// Written just before the value.
    pub prefix: Option<String>,
    /// Written just after the value.
    pub suffix: Option<String>,
    /// Written before the `"key":` of this node inside its parent object.
    pub key_prefix: Option<String>,
    /// Written after the comma (or the last member) that follows this node in its parent.
    pub comma_suffix: Option<String>,
}

/// The node that the first entry named `key` in `props` holds.
pub open spec fn lookup(props: Seq<(String, TypeDefinition)>, key: Seq<char>) -> Option<TypeDefinition>
    decreases props.len(),
{
    if props.len() == 0 {
        None
    } else if props[0].0@ == key {
        Some(props[0].1)
    } else {
        lookup(props.drop_first(), key)
    }
}

/// Index of the first entry of `props` named `key`.
pub fn find_property(props: &Vec<(String, TypeDefinition)>, key: &String) -> (r: Option<usize>)
    ensures
        match r {
            Some(i) => i < props@.len() && lookup(props@, key@) == Some(props@[i as int].1),
            None => lookup(props@, key@) is None,
        },
{
    let mut i: usize = 0;
    assert(props@.subrange(0, props@.len() as int) =~= props@);
    while i < props.len()
        invariant
            i <= props@.len(),
            lookup(props@, key@) == lookup(props@.subrange(i as int, props@.len() as int), key@),
        decreases props@.len() - i,
    {
        let ghost rest = props@.subrange(i as int, props@.len() as int);
        if props[i].0 == *key {
            return Some(i);
        }
        assert(rest.drop_first() =~= props@.subrange(i + 1, props@.len() as int));
        i = i + 1;
    }
    None
}

/// The type that a schema names in its wire form.
pub open spec fn type_named(name: Seq<char>) -> Option<Type> {
    if name == seq!['o', 'b', 'j', 'e', 'c', 't'] {
        Some(Type::Object)
    } else if name == seq!['a', 'r', 'r', 'a', 'y'] {
        Some(Type::Array)
    } else if name == seq!['s', 't', 'r', 'i', 'n', 'g'] {
        Some(Type::String)
    } else if name == seq!['n', 'u', 'm', 'b', 'e', 'r'] {
        Some(Type::Number)
    } else if name == seq!['i', 'n', 't', 'e', 'g', 'e', 'r'] {
        Some(Type::Integer)
    } else if name == seq!['b', 'o', 'o', 'l', 'e', 'a', 'n'] {
        Some(Type::Boolean)
    } else if name == seq!['n', 'u', 'l', 'l'] {
        Some(Type::Null)
    } else {
        None
    }
}

/// Index of the last member of `m` named `key` (the one a JSON map keeps).
pub open spec fn field_index(m: Seq<(String, JsonValue)>, key: Seq<char>) -> Option<int>
    decreases m.len(),
{
    if m.len() == 0 {
        None
    } else if m.last().0@ == key {
        Some(m.len() - 1)
    } else {
        field_index(m.drop_last(), key)
    }
}

/// The index that `field_index` finds holds a member of that name.
pub proof fn lemma_field_index(m: Seq<(String, JsonValue)>, key: Seq<char>)
    ensures
        field_index(m, key) matches Some(i) ==> 0 <= i < m.len() && m[i].0@ == key,
    decreases m.len(),
{
    if m.len() > 0 && m.last().0@ != key {
        lemma_field_index(m.drop_last(), key);
    }
}

/// The value of the member named `key` of the object `v`.
pub open spec fn field(v: JsonValue, key: Seq<char>) -> Option<JsonValue> {
    match v {
        JsonValue::Object(m) => match field_index(m@, key) {
            Some(i) => Some(m@[i].1),
            None => None,
        },
        _ => None,
    }
}

/// A decoration field: absent or `null` is no decoration, a string is one,
/// anything else makes the schema malformed (outer `None`).
pub open spec fn decoration(v: JsonValue, key: Seq<char>) -> Option<Option<Seq<char>>> {
    match field(v, key) {
        None => Some(None),
        Some(JsonValue::Null) => Some(None),
        Some(JsonValue::String(s)) => Some(Some(s@)),
        Some(_) => None,
    }
}

/// The text of an optional string, as an optional sequence.
pub open spec fn opt_view(s: Option<String>) -> Option<Seq<char>> {
    match s {
        Some(t) => Some(t@),
        None => None,
    }
}

/// Wire names of the schema fields.
pub open spec fn key_type() -> Seq<char> {
    seq!['t', 'y', 'p', 'e']
}

pub open spec fn key_properties() -> Seq<char> {
    seq!['p', 'r', 'o', 'p', 'e', 'r', 't', 'i', 'e', 's']
}

pub open spec fn key_prefix_name() -> Seq<char> {
    seq!['p', 'r', 'e', 'f', 'i', 'x']
}

pub open spec fn key_suffix_name() -> Seq<char> {
    seq!['s', 'u', 'f', 'f', 'i', 'x']
}

pub open spec fn key_key_prefix() -> Seq<char> {
    seq!['k', 'e', 'y', '-', 'p', 'r', 'e', 'f', 'i', 'x']
}

pub open spec fn key_comma_suffix() -> Seq<char> {
    seq!['c', 'o', 'm', 'm', 'a', '-', 's', 'u', 'f', 'f', 'i', 'x']
}

/// The type that the `type` field of the schema object `v` names.
pub open spec fn declared_type(v: JsonValue) -> Option<Type> {
    match field(v, key_type()) {
        Some(JsonValue::String(t)) => type_named(t@),
        _ => None,
    }
}

/// Whether the `properties` field of `v` is absent or `null`.
pub open spec fn no_properties(v: JsonValue) -> bool {
    field(v, key_properties()) is None || field(v, key_properties()) == Some(JsonValue::Null)
}

/// The `properties` value of a schema object is structurally below it.
pub proof fn lemma_properties_decreases(v: JsonValue)
    ensures
        field(v, key_properties()) matches Some(p) ==> decreases_to!(v => p),
{
    if let JsonValue::Object(m) = v {
        lemma_field_index(m@, key_properties());
        if let Some(i) = field_index(m@, key_properties()) {
            lemma_member_decreases(v, i);
        }
    }
}

#[via_fn]
proof fn schema_decreases(v: JsonValue) {
    lemma_properties_decreases(v);
}

/// Whether `v` describes a type definition: an object with a known `type`,
/// string (or absent, or null) decorations, and well-formed child schemas.
pub open spec fn schema_valid(v: JsonValue) -> bool
    decreases v, 1int, 0int,
    via schema_decreases
{
    &&& v is Object
    &&& declared_type(v) is Some
    &&& decoration(v, key_prefix_name()) is Some
    &&& decoration(v, key_suffix_name()) is Some
    &&& decoration(v, key_key_prefix()) is Some
    &&& decoration(v, key_comma_suffix()) is Some
    &&& (no_properties(v) || match field(v, key_properties()) {
        Some(p) => p is Object && properties_valid(p, p->Object_0@.len()),
        None => true,
    })
}

/// Whether the first `k` member values of the object `p` are valid schemas.
pub open spec fn properties_valid(p: JsonValue, k: nat) -> bool
    decreases p, 0int, k,
{
    match p {
        JsonValue::Object(pm) => k == 0 || k > pm@.len() || (properties_valid(p, (k - 1) as nat)
            && schema_valid(pm@[k - 1].1)),
        _ => true,
    }
}

#[via_fn]
proof fn binds_decreases(v: JsonValue, td: TypeDefinition) {
    lemma_properties_decreases(v);
}

/// Whether `td` is the type definition that the schema value `v` describes.
pub open spec fn binds(v: JsonValue, td: TypeDefinition) -> bool
    decreases v, 1int, 0int,
    via binds_decreases
{
    &&& v is Object
    &&& declared_type(v) == Some(td.value_type)
    &&& decoration(v, key_prefix_name()) == Some(opt_view(td.prefix))
    &&& decoration(v, key_suffix_name()) == Some(opt_view(td.suffix))
    &&& decoration(v, key_key_prefix()) == Some(opt_view(td.key_prefix))
    &&& decoration(v, key_comma_suffix()) == Some(opt_view(td.comma_suffix))
    &&& if no_properties(v) {
        td.properties is None
    } else {
        match (field(v, key_properties()), td.properties) {
            (Some(p), Some(ps)) => p is Object && ps@.len() == p->Object_0@.len()
                && properties_bind(p, ps@, ps@.len()),
            _ => false,
        }
    }
}

/// Whether the first `k` entries of `ps` carry the names of the first `k`
/// members of the object `p` and the type definitions their values describe.
pub open spec fn properties_bind(p: JsonValue, ps: Seq<(String, TypeDefinition)>, k: nat) -> bool
    decreases p, 0int, k,
{
    match p {
        JsonValue::Object(pm) => k == 0 || k > pm@.len() || (properties_bind(p, ps, (k - 1) as nat)
            && ps[k - 1].0@ == pm@[k - 1].0@ && binds(pm@[k - 1].1, ps[k - 1].1)),
        _ => true,
    }
}

/// Index of the last member of `m` named `key`.
fn find_field(m: &Vec<(String, JsonValue)>, key: &String) -> (r: Option<usize>)
    ensures
        match r {
            Some(i) => field_index(m@, key@) == Some(i as int),
            None => field_index(m@, key@) is None,
        },
{
    let mut i: usize = m.len();
    assert(m@.subrange(0, m@.len() as int) =~= m@);
    while i > 0
        invariant
            i <= m@.len(),
            field_index(m@, key@) == field_index(m@.subrange(0, i as int), key@),
        decreases i,
    {
        if m[i - 1].0 == *key {
            return Some(i - 1);
        }
        assert(m@.subrange(0, i as int).drop_last() =~= m@.subrange(0, i - 1));
        i = i - 1;
    }
    None
}

/// The member value named `key` of the object `v`.
fn get_field<'a>(v: &'a JsonValue, key: &str) -> (r: Option<&'a JsonValue>)
    ensures
        match r {
            Some(x) => field(*v, key@) == Some(*x),
            None => field(*v, key@) is None,
        },
{
    match v {
        JsonValue::Object(m) => {
            let k = key.to_string();
            proof {
                lemma_field_index(m@, k@);
            }
            match find_field(m, &k) {
                Some(i) => Some(&m[i].1),
                None => None,
            }
        },
        _ => None,
    }
}

/// Reads the decoration field `key` of the object `v`.
fn read_decoration(v: &JsonValue, key: &str) -> (r: Result<Option<String>, FormatError>)
    ensures
        match r {
            Ok(d) => decoration(*v, key@) == Some(opt_view(d)),
            Err(e) => e == FormatError::SchemaSyntax && decoration(*v, key@) is None,
        },
{
    match get_field(v, key) {
        None => Ok(None),
        Some(JsonValue::Null) => Ok(None),
        Some(JsonValue::String(s)) => Ok(Some(s.clone())),
        Some(_) => Err(FormatError::SchemaSyntax),
    }
}

fn name_is(name: &String, lit: &str) -> (r: bool)
    ensures
        r == (name@ == lit@),
{
    let l = lit.to_string();
    *name == l
}

/// The type that `name` names in a schema.
pub fn parse_type_name(name: &String) -> (r: Option<Type>)
    ensures
        r == type_named(name@),
{
    proof {
        reveal_strlit("object");
        assert("object"@ =~= seq!['o', 'b', 'j', 'e', 'c', 't']);
        reveal_strlit("array");
        assert("array"@ =~= seq!['a', 'r', 'r', 'a', 'y']);
        reveal_strlit("string");
        assert("string"@ =~= seq!['s', 't', 'r', 'i', 'n', 'g']);
        reveal_strlit("number");
        assert("number"@ =~= seq!['n', 'u', 'm', 'b', 'e', 'r']);
        reveal_strlit("integer");
        assert("integer"@ =~= seq!['i', 'n', 't', 'e', 'g', 'e', 'r']);
        reveal_strlit("boolean");
        assert("boolean"@ =~= seq!['b', 'o', 'o', 'l', 'e', 'a', 'n']);
        reveal_strlit("null");
        assert("null"@ =~= seq!['n', 'u', 'l', 'l']);
    }
    if name_is(name, "object") {
        Some(Type::Object)
    } else if name_is(name, "array") {
        Some(Type::Array)
    } else if name_is(name, "string") {
        Some(Type::String)
    } else if name_is(name, "number") {
        Some(Type::Number)
    } else if name_is(name, "integer") {
        Some(Type::Integer)
    } else if name_is(name, "boolean") {
        Some(Type::Boolean)
    } else if name_is(name, "null") {
        Some(Type::Null)
    } else {
        None
    }
}

proof fn lemma_properties_valid_prefix(p: JsonValue, j: nat, k: nat)
    requires
        p is Object,
        j <= k <= p->Object_0@.len(),
        properties_valid(p, k),
    ensures
        properties_valid(p, j),
    decreases k,
{
    if j < k {
        if let JsonValue::Object(pm) = p {
            lemma_properties_valid_prefix(p, j, (k - 1) as nat);
        }
    }
}

proof fn lemma_properties_bind_prefix(
    p: JsonValue,
    ps1: Seq<(String, TypeDefinition)>,
    ps2: Seq<(String, TypeDefinition)>,
    k: nat,
)
    requires
        k <= ps1.len(),
        k <= ps2.len(),
        ps1.subrange(0, k as int) == ps2.subrange(0, k as int),
    ensures
        properties_bind(p, ps1, k) == properties_bind(p, ps2, k),
    decreases k,
{
    if k > 0 {
        assert(ps1[k - 1] == ps1.subrange(0, k as int)[k - 1]);
        assert(ps2[k - 1] == ps2.subrange(0, k as int)[k - 1]);
        assert(ps1.subrange(0, k - 1) =~= ps1.subrange(0, k as int).subrange(0, k - 1));
        assert(ps2.subrange(0, k - 1) =~= ps2.subrange(0, k as int).subrange(0, k - 1));
        lemma_properties_bind_prefix(p, ps1, ps2, (k - 1) as nat);
    }
}

/// Builds the type definition that the schema value `v` describes.
pub fn type_definition_from_value(v: &JsonValue) -> (r: Result<TypeDefinition, FormatError>)
    ensures
        match r {
            Ok(td) => schema_valid(*v) && binds(*v, td),
            Err(e) => e == FormatError::SchemaSyntax && !schema_valid(*v),
        },
    decreases v,
{
    proof {
        reveal_strlit("type");
        reveal_strlit("properties");
        reveal_strlit("prefix");
        reveal_strlit("suffix");
        reveal_strlit("key-prefix");
        reveal_strlit("comma-suffix");
    }
    assert("type"@ == key_type());
    assert("properties"@ == key_properties());
    assert("prefix"@ == key_prefix_name());
    assert("suffix"@ == key_suffix_name());
    assert("key-prefix"@ == key_key_prefix());
    assert("comma-suffix"@ == key_comma_suffix());
    if !matches!(v, JsonValue::Object(_)) {
        return Err(FormatError::SchemaSyntax);
    }
    let value_type = match get_field(v, "type") {
        Some(JsonValue::String(t)) => match parse_type_name(t) {
            Some(ty) => ty,
            None => return Err(FormatError::SchemaSyntax),
        },
        _ => return Err(FormatError::SchemaSyntax),
    };
    let prefix = read_decoration(v, "prefix")?;
    let suffix = read_decoration(v, "suffix")?;
    let key_prefix = read_decoration(v, "key-prefix")?;
    let comma_suffix = read_decoration(v, "comma-suffix")?;
    let properties = match get_field(v, "properties") {
        None => None,
        Some(JsonValue::Null) => None,
        Some(p) => {
            let pm = match p {
                JsonValue::Object(pm) => pm,
                _ => return Err(FormatError::SchemaSyntax),
            };
            proof {
                lemma_properties_decreases(*v);
            }
            let mut props: Vec<(String, TypeDefinition)> = Vec::new();
            let mut i: usize = 0;
            while i < pm.len()
                invariant
                    i <= pm@.len(),
                    *p == JsonValue::Object(*pm),
                    field(*v, key_properties()) == Some(*p),
                    decreases_to!(*v => *p),
                    props@.len() == i,
                    properties_valid(*p, i as nat),
                    properties_bind(*p, props@, i as nat),
                decreases pm@.len() - i,
            {
                proof {
                    lemma_member_decreases(*p, i as int);
                }
                let child = match type_definition_from_value(&pm[i].1) {
                    Ok(c) => c,
                    Err(e) => {
                        proof {
                            if schema_valid(*v) {
                                lemma_properties_valid_prefix(*p, (i + 1) as nat, pm@.len());
                            }
                        }
                        return Err(e);
                    },
                };
                let ghost old_props = props@;
                props.push((pm[i].0.clone(), child));
                proof {
                    assert(props@.subrange(0, i as int) =~= old_props.subrange(0, i as int));
                    lemma_properties_bind_prefix(*p, props@, old_props, i as nat);
                }
                i = i + 1;
            }
            Some(props)
        },
    };
    Ok(TypeDefinition { value_type, properties, prefix, suffix, key_prefix, comma_suffix })
}

/// Parses the schema text `a` into its type definition.
pub fn parse_type_definition(a: &str) -> (r: Result<TypeDefinition, FormatError>)
    ensures
        match r {
            Ok(td) => json_parse(a@) matches Some(v) && schema_valid(v) && binds(v, td),
            Err(e) => e == FormatError::SchemaSyntax && !(json_parse(a@) matches Some(v)
                && schema_valid(v)),
        },
{
    match parse_json(a) {
        Ok(v) => type_definition_from_value(&v),
        Err(_) => Err(FormatError::SchemaSyntax),
    }
}

proof fn lemma_properties_bind_each(p: JsonValue, ps: Seq<(String, TypeDefinition)>, k: nat, j: int)
    requires
        p is Object,
        k <= p->Object_0@.len(),
        properties_bind(p, ps, k),
        0 <= j < k,
    ensures
        ps[j].0@ == p->Object_0@[j].0@,
        binds(p->Object_0@[j].1, ps[j].1),
    decreases k,
{
    if j < k - 1 {
        lemma_properties_bind_each(p, ps, (k - 1) as nat, j);
    }
}

/// A type definition read from a schema holds exactly what the schema declares:
/// the named type, each decoration string as given (an empty string stays a
/// present, empty decoration; an absent or null field stays absent), and one
/// child per `properties` member, with its name, in the same order.
pub proof fn lemma_schema_round_trip(v: JsonValue, td: TypeDefinition)
    requires
        binds(v, td),
    ensures
        field(v, key_type()) matches Some(JsonValue::String(t)) && type_named(t@) == Some(
            td.value_type,
        ),
        match field(v, key_prefix_name()) {
            Some(JsonValue::String(s)) => td.prefix matches Some(d) && d@ == s@,
            _ => td.prefix is None,
        },
        match field(v, key_suffix_name()) {
            Some(JsonValue::String(s)) => td.suffix matches Some(d) && d@ == s@,
            _ => td.suffix is None,
        },
        match field(v, key_key_prefix()) {
            Some(JsonValue::String(s)) => td.key_prefix matches Some(d) && d@ == s@,
            _ => td.key_prefix is None,
        },
        match field(v, key_comma_suffix()) {
            Some(JsonValue::String(s)) => td.comma_suffix matches Some(d) && d@ == s@,
            _ => td.comma_suffix is None,
        },
        no_properties(v) <==> td.properties is None,
        match (field(v, key_properties()), td.properties) {
            (Some(JsonValue::Object(pm)), Some(ps)) => ps@.len() == pm@.len() && forall|j: int|
                0 <= j < ps@.len() ==> ps@[j].0@ == pm@[j].0@ && binds(pm@[j].1, ps@[j].1),
            _ => true,
        },
{
    if !no_properties(v) {
        if let (Some(p), Some(ps)) = (field(v, key_properties()), td.properties) {
            assert forall|j: int| 0 <= j < ps@.len() implies ps@[j].0@ == p->Object_0@[j].0@
                && binds(p->Object_0@[j].1, ps@[j].1) by {
                lemma_properties_bind_each(p, ps@, ps@.len(), j);
            }
        }
    }
}

} // verus!
