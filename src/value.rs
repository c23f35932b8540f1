use vstd::prelude::*;

verus! {

/// A JSON number, held as its canonical text and whether it is a 64-bit signed integer.
#[derive(Debug, PartialEq)]
pub struct JsonNumber {
    pub text: String,
    pub is_i64: bool,
}

/// A parsed JSON value; object members keep the order of the source text.
#[derive(Debug, PartialEq)]
pub enum JsonValue {
    Null,
    Bool(bool),
    Number(JsonNumber),
    String(String),
    Array(Vec<JsonValue>),
    Object(Vec<(String, JsonValue)>),
}

/// The JSON string literal (quotes and escapes included) that serde_json writes for `s`.
pub uninterp spec fn json_quoted(s: Seq<char>) -> Seq<char>;

/// The value that serde_json reads from the text `s`, or `None` where `s` is not JSON.
pub uninterp spec fn json_parse(s: Seq<char>) -> Option<JsonValue>;

/// Relies on serde_json's string serializer: the quoted, escaped literal of `s`.
#[verifier::external_body]
pub(crate) fn quote_str(s: &str) -> (r: String)
    ensures
        r@ == json_quoted(s@),
{
    serde_json::Value::String(s.to_string()).to_string()
}

#[verifier::external_type_specification]
#[verifier::external_body]
pub struct ExValue(serde_json::Value);

#[verifier::external_type_specification]
#[verifier::external_body]
pub struct ExError(serde_json::Error);

/// Moves a serde_json value into a `JsonValue`, node for node; a number keeps
/// its `Display` text and `Number::is_i64`.
#[verifier::external_body]
fn from_serde(v: serde_json::Value) -> JsonValue {
    match v {
        serde_json::Value::Null => JsonValue::Null,
        serde_json::Value::Bool(b) => JsonValue::Bool(b),
        serde_json::Value::Number(n) => JsonValue::Number(
            JsonNumber { text: n.to_string(), is_i64: n.is_i64() },
        ),
        serde_json::Value::String(s) => JsonValue::String(s),
        serde_json::Value::Array(a) => JsonValue::Array(a.into_iter().map(from_serde).collect()),
        serde_json::Value::Object(m) => JsonValue::Object(
            m.into_iter().map(|(k, x)| (k, from_serde(x))).collect(),
        ),
    }
}

/// Relies on serde_json::from_str into a `serde_json::Value` (members in source order).
#[verifier::external_body]
pub(crate) fn parse_json(s: &str) -> (r: Result<JsonValue, serde_json::Error>)
    ensures
        match r {
            Ok(v) => json_parse(s@) == Some(v),
            Err(_) => json_parse(s@) is None,
        },
{
    serde_json::from_str::<serde_json::Value>(s).map(from_serde)
}

/// The separator after item `i` of `n`: a comma after every item but the last.
pub open spec fn sep_after(i: nat, n: nat) -> Seq<char> {
    if i + 1 < n { seq![','] } else { Seq::empty() }
}

/// Canonical compact JSON text of `v`, as serde_json prints a value.
pub open spec fn canon(v: JsonValue) -> Seq<char>
    decreases v, 1int, 0int,
{
    match v {
        JsonValue::Null => seq!['n', 'u', 'l', 'l'],
        JsonValue::Bool(b) => if b { seq!['t', 'r', 'u', 'e'] } else { seq!['f', 'a', 'l', 's', 'e'] },
        JsonValue::Number(n) => n.text@,
        JsonValue::String(s) => json_quoted(s@),
        JsonValue::Array(items) => seq!['['] + canon_items(v, items@.len()) + seq![']'],
        JsonValue::Object(members) => seq!['{'] + canon_members(v, members@.len()) + seq!['}'],
    }
}

/// Canonical text of the first `k` items of the array `v`, comma separated.
pub open spec fn canon_items(v: JsonValue, k: nat) -> Seq<char>
    decreases v, 0int, k,
{
    match v {
        JsonValue::Array(items) => if k == 0 || k > items@.len() {
            Seq::empty()
        } else {
            canon_items(v, (k - 1) as nat) + canon(items@[k - 1]) + sep_after((k - 1) as nat, items@.len())
        },
        _ => Seq::empty(),
    }
}

/// Canonical text of one object member: the quoted key, a colon, the value.
pub open spec fn canon_member(key: Seq<char>, text: Seq<char>) -> Seq<char> {
    json_quoted(key) + seq![':'] + text
}

/// Canonical text of the first `k` members of the object `v`, comma separated.
pub open spec fn canon_members(v: JsonValue, k: nat) -> Seq<char>
    decreases v, 0int, k,
{
    match v {
        JsonValue::Object(members) => if k == 0 || k > members@.len() {
            Seq::empty()
        } else {
            canon_members(v, (k - 1) as nat) + canon_member(members@[k - 1].0@, canon(members@[k - 1].1))
                + sep_after((k - 1) as nat, members@.len())
        },
        _ => Seq::empty(),
    }
}

/// An array item is structurally below the array.
pub proof fn lemma_item_decreases(v: JsonValue, i: int)
    requires
        v is Array,
        0 <= i < v->Array_0@.len(),
    ensures
        decreases_to!(v => v->Array_0@[i]),
{
    let items = v->Array_0;
    assert(decreases_to!(v => items));
    assert(decreases_to!(items => items[i]));
}

/// An object member's value is structurally below the object.
pub proof fn lemma_member_decreases(v: JsonValue, i: int)
    requires
        v is Object,
        0 <= i < v->Object_0@.len(),
    ensures
        decreases_to!(v => v->Object_0@[i].1),
{
    let members = v->Object_0;
    assert(decreases_to!(v => members));
    assert(decreases_to!(members => members[i]));
    assert(decreases_to!(members[i] => members[i].1));
}

/// Appends the canonical JSON text of `v` to `out`.
pub fn write_canonical(v: &JsonValue, out: &mut String)
    ensures
        final(out)@ == old(out)@ + canon(*v),
    decreases v,
{
    proof {
        reveal_strlit("null");
        reveal_strlit("true");
        reveal_strlit("false");
        reveal_strlit("[");
        reveal_strlit("]");
        reveal_strlit("{");
        reveal_strlit("}");
        reveal_strlit(",");
        reveal_strlit(":");
    }
    match v {
        JsonValue::Null => out.append("null"),
        JsonValue::Bool(b) => if *b { out.append("true") } else { out.append("false") },
        JsonValue::Number(n) => out.append(n.text.as_str()),
        JsonValue::String(s) => out.append(quote_str(s.as_str()).as_str()),
        JsonValue::Array(items) => {
            let ghost start = out@;
            out.append("[");
            assert(out@ =~= start + seq!['['] + canon_items(*v, 0));
            let mut i: usize = 0;
            while i < items.len()
                invariant
                    0 <= i <= items@.len(),
                    *v == JsonValue::Array(*items),
                    out@ == start + seq!['['] + canon_items(*v, i as nat),
                decreases items@.len() - i,
            {
                proof {
                    reveal_strlit(",");
                    reveal_strlit(":");
                }
                proof {
                    lemma_item_decreases(*v, i as int);
                }
                write_canonical(&items[i], out);
                let ghost before = out@;
                if i + 1 < items.len() {
                    out.append(",");
                }
                assert(out@ =~= before + sep_after(i as nat, items@.len()));
                i = i + 1;
                proof {
                    assert(canon_items(*v, i as nat) == canon_items(*v, (i - 1) as nat)
                        + canon(items@[i - 1]) + sep_after((i - 1) as nat, items@.len()));
                    assert(out@ =~= start + seq!['['] + canon_items(*v, i as nat));
                }
            }
            out.append("]");
            assert(out@ =~= old(out)@ + canon(*v));
        },
        JsonValue::Object(members) => {
            let ghost start = out@;
            out.append("{");
            assert(out@ =~= start + seq!['{'] + canon_members(*v, 0));
            let mut i: usize = 0;
            while i < members.len()
                invariant
                    0 <= i <= members@.len(),
                    *v == JsonValue::Object(*members),
                    out@ == start + seq!['{'] + canon_members(*v, i as nat),
                decreases members@.len() - i,
            {
                proof {
                    reveal_strlit(",");
                    reveal_strlit(":");
                }
                out.append(quote_str(members[i].0.as_str()).as_str());
                out.append(":");
                proof {
                    lemma_member_decreases(*v, i as int);
                }
                write_canonical(&members[i].1, out);
                let ghost before = out@;
                if i + 1 < members.len() {
                    out.append(",");
                }
                assert(out@ =~= before + sep_after(i as nat, members@.len()));
                i = i + 1;
                proof {
                    assert(canon_members(*v, i as nat) == canon_members(*v, (i - 1) as nat)
                        + canon_member(members@[i - 1].0@, canon(members@[i - 1].1))
                        + sep_after((i - 1) as nat, members@.len()));
                    assert(out@ =~= start + seq!['{'] + canon_members(*v, i as nat));
                }
            }
            out.append("}");
            assert(out@ =~= old(out)@ + canon(*v));
        },
    }
}

} // verus!
