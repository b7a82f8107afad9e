use vstd::prelude::*;

verus! {

/// The JSON string literal that serde_json writes for the text `s`: quoted,
/// with the characters JSON requires escaped.
pub uninterp spec fn json_quoted(s: Seq<char>) -> Seq<char>;

/// No character of `s` needs escaping in a JSON string: no quote, no
/// backslash, no control character below U+0020.
pub open spec fn plain_text(s: Seq<char>) -> bool {
    forall|k: int| 0 <= k < s.len() ==> #[trigger] s[k] != '"' && s[k] != '\\' && s[k] >= ' '
}

/// Relies on serde_json's compact `Display` of `Value::String`, which writes
/// the escaped string literal of its text; characters that need no escaping
/// pass through unchanged between the quotes.
#[verifier::external_body]
fn json_string(s: &str) -> (r: String)
    ensures
        r@ == json_quoted(s@),
        plain_text(s@) ==> r@ == seq!['"'] + s@ + seq!['"'],
{
    serde_json::Value::String(s.to_owned()).to_string()
}

/// A JSON object with the single member `key: value`, both strings.
pub open spec fn json_object(key: Seq<char>, value: Seq<char>) -> Seq<char> {
    seq!['{'] + json_quoted(key) + seq![':'] + json_quoted(value) + seq!['}']
}

/// Writes the JSON object with the single string member `key: value`.
pub fn single_member_object(key: &str, value: &str) -> (r: String)
    ensures
        r@ == json_object(key@, value@),
{
    let k = json_string(key);
    let v = json_string(value);
    let mut out = String::from_str("{");
    out.append(k.as_str());
    out.append(":");
    out.append(v.as_str());
    out.append("}");
    proof {
        reveal_strlit("{");
        reveal_strlit(":");
        reveal_strlit("}");
    }
    assert(out@ =~= json_object(key@, value@));
    out
}

} // verus!
