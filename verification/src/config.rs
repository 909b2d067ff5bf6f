//! Reading the signed configuration: the signature check, the two fields
//! the library hands back (`api_url`, `api_fingerprint`), and the response
//! text built from them.

use vstd::prelude::*;
use vstd::string::*;
use vstd::utf8::*;

use crate::crypto::{config_signature_valid, verify_signature_multi};

use crate::text::{
    chars_of,
    decimal,
    from_utf8,
    push_char,
    to_uppercase,
    unicode_uppercase,
    usize_to_decimal,
    find_from,
    first_occurrence,
    first_occurrence_from,
    occurs_at,
    is_whitespace,
    leading_whitespace,
    skip_whitespace,
    unicode_whitespace,
    string_from_chars,
    trim_leading_whitespace,
};

verus! {

/// A key in double quotes, as it appears in a JSON object.
pub open spec fn quoted(key: Seq<char>) -> Seq<char> {
    seq!['"'] + key + seq!['"']
}

/// The last character before index `i` of `s` that is not whitespace, if
/// there is one.
pub open spec fn last_non_whitespace_before(s: Seq<char>, i: int) -> Option<char>
    decreases i,
{
    if i <= 0 || i > s.len() {
        None
    } else if unicode_whitespace(s[i - 1]) {
        last_non_whitespace_before(s, i - 1)
    } else {
        Some(s[i - 1])
    }
}

/// `label` occurs at `i` in `json` as a key: it does not stand where a
/// value stands, right after a `:` (whitespace aside).
pub open spec fn label_at(json: Seq<char>, label: Seq<char>, i: int) -> bool {
    &&& occurs_at(json, label, i)
    &&& last_non_whitespace_before(json, i) != Some(':')
}

/// The first index at or after `i` where `label` occurs as a key.
pub open spec fn first_label_from(json: Seq<char>, label: Seq<char>, i: int) -> Option<int>
    decreases json.len() + 1 - i,
{
    if i < 0 || i > json.len() {
        None
    } else if label_at(json, label, i) {
        Some(i)
    } else {
        first_label_from(json, label, i + 1)
    }
}

/// The string value of `key` in a flat JSON object, found the simple way:
/// at the first `"key"` that stands as a key, then the first `:` after it;
/// after that `:` and any whitespace a `"` must come; the value runs from
/// there to the next `"`.
pub open spec fn json_string_value(json: Seq<char>, key: Seq<char>) -> Option<Seq<char>> {
    match first_label_from(json, quoted(key), 0) {
        None => None,
        Some(k) => {
            let after_key = json.subrange(k + quoted(key).len(), json.len() as int);
            match first_occurrence(after_key, seq![':']) {
                None => None,
                Some(c) => {
                    let value = trim_leading_whitespace(
                        after_key.subrange(c + 1, after_key.len() as int),
                    );
                    if value.len() == 0 || value[0] != '"' {
                        None
                    } else {
                        let inner = value.drop_first();
                        match first_occurrence(inner, seq!['"']) {
                            None => None,
                            Some(end) => Some(inner.subrange(0, end)),
                        }
                    }
                },
            }
        },
    }
}

proof fn lemma_occurs_in_tail(json: Seq<char>, label: Seq<char>, i: int, m: int)
    requires
        0 <= i <= json.len(),
        0 <= m,
    ensures
        occurs_at(json.subrange(i, json.len() as int), label, m) == occurs_at(json, label, m + i),
{
    let tail = json.subrange(i, json.len() as int);
    if m + label.len() <= tail.len() {
        assert(tail.subrange(m, m + label.len()) =~= json.subrange(m + i, m + i + label.len()));
    }
}

proof fn lemma_first_label_skip(json: Seq<char>, label: Seq<char>, i: int, p: int)
    requires
        0 <= i <= p <= json.len(),
        forall|x: int| i <= x < p ==> !occurs_at(json, label, x),
    ensures
        first_label_from(json, label, i) == first_label_from(json, label, p),
    decreases p - i,
{
    if i < p {
        lemma_first_label_skip(json, label, i + 1, p);
    }
}

proof fn lemma_first_label_none(json: Seq<char>, label: Seq<char>, i: int)
    requires
        0 <= i,
        forall|x: int| i <= x ==> !occurs_at(json, label, x),
    ensures
        first_label_from(json, label, i) is None,
    decreases json.len() + 1 - i,
{
    if i <= json.len() {
        lemma_first_label_none(json, label, i + 1);
    }
}

/// `"key"`, as characters.
fn quoted_chars(key: &str) -> (search: Vec<char>)
    ensures
        search@ == quoted(key@),
{
    let key_chars = chars_of(key);
    let mut search: Vec<char> = Vec::new();
    search.push('"');
    let mut k: usize = 0;
    while k < key_chars.len()
        invariant
            k <= key_chars@.len(),
            search@ == seq!['"'] + key_chars@.subrange(0, k as int),
        decreases key_chars@.len() - k,
    {
        search.push(key_chars[k]);
        assert(key_chars@.subrange(0, k + 1) =~= key_chars@.subrange(0, k as int).push(
            key_chars@[k as int],
        ));
        k += 1;
    }
    search.push('"');
    assert(search@ =~= quoted(key@));
    search
}

/// The first place `label` occurs as a key.
fn find_label(chars: &Vec<char>, label: &Vec<char>) -> (r: Option<usize>)
    requires
        label@.len() > 0,
    ensures
        match r {
            Some(k) => first_label_from(chars@, label@, 0) == Some(k as int) && k + label@.len()
                <= chars@.len(),
            None => first_label_from(chars@, label@, 0) is None,
        },
{
    let ghost j = chars@;
    let mut i: usize = 0;
    loop
        invariant
            i <= j.len(),
            chars@ == j,
            label@.len() > 0,
            first_label_from(j, label@, 0) == first_label_from(j, label@, i as int),
        decreases j.len() + 1 - i,
    {
        let ghost tail = j.subrange(i as int, j.len() as int);
        let p = match find_from(chars, i, label) {
            Some(p) => p,
            None => {
                proof {
                    assert forall|x: int| i <= x implies !occurs_at(j, label@, x) by {
                        lemma_occurs_in_tail(j, label@, i as int, x - i);
                        if occurs_at(j, label@, x) {
                            crate::text::lemma_occurrence_found_from(tail, label@, 0, x - i);
                        }
                    }
                    lemma_first_label_none(j, label@, i as int);
                }
                return None;
            },
        };
        proof {
            crate::text::lemma_first_occurrence_within(tail, label@, 0);
            assert(first_occurrence_from(tail, label@, 0) == Some(p - i));
            lemma_occurs_in_tail(j, label@, i as int, p - i);
            assert forall|x: int| i <= x < p implies !occurs_at(j, label@, x) by {
                lemma_occurs_in_tail(j, label@, i as int, x - i);
            }
            lemma_first_label_skip(j, label@, i as int, p as int);
            assert(chars@.len() == chars.len());
        }
        let mut b = p;
        while b > 0 && is_whitespace(chars[b - 1])
            invariant
                b <= p <= j.len(),
                chars@ == j,
                last_non_whitespace_before(j, p as int) == last_non_whitespace_before(j, b as int),
            decreases b,
        {
            b -= 1;
        }
        if !(b > 0 && chars[b - 1] == ':') {
            return Some(p);
        }
        i = p + 1;
    }
}

/// Extract the string value of `key` from a flat JSON object.
pub fn extract_json_string(json: &str, key: &str) -> (r: Option<String>)
    ensures
        match r {
            Some(v) => json_string_value(json@, key@) == Some(v@),
            None => json_string_value(json@, key@) is None,
        },
{
    let chars = chars_of(json);
    let search = quoted_chars(key);
    let ghost j = json@;
    assert(chars@.len() == chars.len());
    let key_pos = match find_label(&chars, &search) {
        Some(k) => k,
        None => return None,
    };
    let after_key = key_pos + search.len();
    let ghost after_key_s = j.subrange(after_key as int, j.len() as int);
    let colon_pat: Vec<char> = vec![':'];
    assert(colon_pat@ =~= seq![':']);
    let colon = match find_from(&chars, after_key, &colon_pat) {
        Some(c) => c,
        None => return None,
    };
    proof {
        crate::text::lemma_first_occurrence_within(after_key_s, colon_pat@, 0);
        assert(after_key_s.subrange(colon - after_key + 1, after_key_s.len() as int) =~= j.subrange(
            colon + 1,
            j.len() as int,
        ));
    }
    let p = skip_whitespace(&chars, colon + 1, chars.len());
    if p >= chars.len() || chars[p] != '"' {
        return None;
    }
    let inner = p + 1;
    let ghost inner_s = j.subrange(inner as int, j.len() as int);
    assert(j.subrange(p as int, j.len() as int).drop_first() =~= inner_s);
    let quote: Vec<char> = vec!['"'];
    assert(quote@ =~= seq!['"']);
    let end = match find_from(&chars, inner, &quote) {
        Some(e) => e,
        None => return None,
    };
    proof {
        crate::text::lemma_first_occurrence_within(inner_s, quote@, 0);
        assert(inner_s.subrange(0, end - inner) =~= j.subrange(inner as int, end as int));
    }
    Some(string_from_chars(&chars, inner, end))
}

proof fn lemma_last_non_whitespace_is_earlier(s: Seq<char>, i: int)
    ensures
        last_non_whitespace_before(s, i) matches Some(c) ==> exists|k: int| 0 <= k < i && s[k] == c,
    decreases i,
{
    if 0 < i <= s.len() && unicode_whitespace(s[i - 1]) {
        lemma_last_non_whitespace_is_earlier(s, i - 1);
    }
}

/// The value of a key is exactly the text between the quotes that follow
/// `"key":`, whatever its length and content (quotes aside), when nothing
/// before the key could be taken for it: in
/// `prefix "key":"value" rest`, with no quote or colon in `prefix`, the
/// value read is `value`.
pub proof fn lemma_json_value_is_quoted_text(
    prefix: Seq<char>,
    key: Seq<char>,
    value: Seq<char>,
    rest: Seq<char>,
)
    requires
        !prefix.contains('"'),
        !prefix.contains(':'),
        !value.contains('"'),
    ensures
        json_string_value(prefix + quoted(key) + seq![':', '"'] + value + seq!['"'] + rest, key)
            == Some(value),
{
    let q = quoted(key);
    let json = prefix + q + seq![':', '"'] + value + seq!['"'] + rest;
    let pl = prefix.len() as int;
    assert forall|x: int| 0 <= x < pl implies !occurs_at(json, q, x) by {
        if occurs_at(json, q, x) {
            assert(json.subrange(x, x + q.len())[0] == json[x]);
            assert(json[x] == prefix[x]);
            assert(prefix.contains('"'));
        }
    }
    lemma_first_label_skip(json, q, 0, pl);
    assert(json.subrange(pl, pl + q.len()) =~= q);
    lemma_last_non_whitespace_is_earlier(json, pl);
    if last_non_whitespace_before(json, pl) == Some(':') {
        let k = choose|k: int| 0 <= k < pl && json[k] == ':';
        assert(json[k] == prefix[k]);
        assert(prefix.contains(':'));
    }
    assert(label_at(json, q, pl));
    assert(first_label_from(json, q, 0) == Some(pl));
    let after_key = json.subrange(pl + q.len(), json.len() as int);
    assert(after_key =~= seq![':', '"'] + value + seq!['"'] + rest);
    crate::text::lemma_first_char_occurrence(after_key, ':', 0);
    let t = after_key.subrange(1, after_key.len() as int);
    assert(t =~= seq!['"'] + value + seq!['"'] + rest);
    assert(!unicode_whitespace(t[0]));
    assert(leading_whitespace(t) == 0);
    assert(trim_leading_whitespace(t) =~= t);
    let inner = t.drop_first();
    assert(inner =~= value + seq!['"'] + rest);
    assert forall|k: int| 0 <= k < value.len() implies inner[k] != '"' by {
        assert(inner[k] == value[k]);
    }
    crate::text::lemma_first_char_occurrence(inner, '"', value.len() as int);
    assert(inner.subrange(0, value.len() as int) =~= value);
}

/// The two fields the configuration must carry: `api_url` and
/// `api_fingerprint`, both present and non-empty.
pub open spec fn config_fields(json: Seq<char>) -> Option<(Seq<char>, Seq<char>)> {
    match json_string_value(json, "api_url"@) {
        None => None,
        Some(url) => match json_string_value(json, "api_fingerprint"@) {
            None => None,
            Some(fp) => if url.len() == 0 || fp.len() == 0 {
                None
            } else {
                Some((url, fp))
            },
        },
    }
}

/// Extract `api_url` and `api_fingerprint` from the configuration JSON.
pub fn extract_config_fields(json: &str) -> (r: Option<(String, String)>)
    ensures
        match r {
            Some((url, fp)) => config_fields(json@) == Some((url@, fp@)),
            None => config_fields(json@) is None,
        },
{
    let api_url = match extract_json_string(json, "api_url") {
        Some(v) => v,
        None => return None,
    };
    let api_fingerprint = match extract_json_string(json, "api_fingerprint") {
        Some(v) => v,
        None => return None,
    };
    if api_url.as_str().is_empty() || api_fingerprint.as_str().is_empty() {
        return None;
    }
    Some((api_url, api_fingerprint))
}

/// A value found by `json_string_value` never holds a double quote: it ends
/// at the first one.
pub proof fn lemma_json_value_has_no_quote(json: Seq<char>, key: Seq<char>)
    ensures
        json_string_value(json, key) matches Some(v) ==> !v.contains('"'),
{
    if let Some(v) = json_string_value(json, key) {
        let k = first_label_from(json, quoted(key), 0).unwrap();
        let after_key = json.subrange(k + quoted(key).len(), json.len() as int);
        let c = first_occurrence(after_key, seq![':']).unwrap();
        let value = trim_leading_whitespace(after_key.subrange(c + 1, after_key.len() as int));
        let inner = value.drop_first();
        let end = first_occurrence(inner, seq!['"']).unwrap();
        crate::text::lemma_first_occurrence_within(inner, seq!['"'], 0);
        assert forall|m: int| 0 <= m < v.len() implies v[m] != '"' by {
            assert(!occurs_at(inner, seq!['"'], m));
            if v[m] == '"' {
                assert(inner.subrange(m, m + 1) =~= seq!['"']);
            }
        }
    }
}

/// `s` with every double quote preceded by a backslash.
pub open spec fn escape_quotes(s: Seq<char>) -> Seq<char>
    decreases s.len(),
{
    if s.len() == 0 {
        seq![]
    } else {
        escape_quotes(s.drop_last()) + if s.last() == '"' {
            seq!['\\', '"']
        } else {
            seq![s.last()]
        }
    }
}

/// Escaping leaves text without double quotes unchanged.
pub proof fn lemma_escape_without_quotes(s: Seq<char>)
    requires
        !s.contains('"'),
    ensures
        escape_quotes(s) == s,
    decreases s.len(),
{
    if s.len() > 0 {
        assert(!s.drop_last().contains('"')) by {
            if s.drop_last().contains('"') {
                let k = choose|k: int| 0 <= k < s.drop_last().len() && s.drop_last()[k] == '"';
                assert(s[k] == '"');
            }
        }
        lemma_escape_without_quotes(s.drop_last());
        assert(s.last() != '"') by {
            assert(s[s.len() - 1] == s.last());
        }
        assert(s.drop_last() + seq![s.last()] =~= s);
    }
}

/// Append `s` to `out` with every double quote escaped.
fn push_escaped(out: &mut String, s: &str)
    ensures
        final(out)@ == old(out)@ + escape_quotes(s@),
{
    let chars = chars_of(s);
    let mut i: usize = 0;
    while i < chars.len()
        invariant
            i <= chars@.len(),
            chars@ == s@,
            out@ == old(out)@ + escape_quotes(chars@.subrange(0, i as int)),
        decreases chars@.len() - i,
    {
        let c = chars[i];
        if c == '"' {
            push_char(out, '\\');
            push_char(out, '"');
        } else {
            push_char(out, c);
        }
        proof {
            let prefix = chars@.subrange(0, i + 1);
            assert(prefix.drop_last() =~= chars@.subrange(0, i as int));
            assert(prefix.last() == c);
        }
        assert(out@ =~= old(out)@ + escape_quotes(chars@.subrange(0, i + 1)));
        i += 1;
    }
    assert(chars@.subrange(0, chars@.len() as int) =~= chars@);
}

/// The JSON text handed back for a verified configuration:
/// `{"api_url":"<url>","api_fingerprint":"<FINGERPRINT>"}`, the fingerprint
/// uppercased, double quotes in either value escaped.
pub open spec fn config_response(url: Seq<char>, fp: Seq<char>) -> Seq<char> {
    "{\"api_url\":\""@ + escape_quotes(url) + "\",\"api_fingerprint\":\""@ + escape_quotes(
        unicode_uppercase(fp),
    ) + "\"}"@
}

/// Why a configuration was refused.
#[derive(Debug, Clone, Copy, PartialEq, Eq)]
pub enum ConfigError {
    /// The signature does not have 64 bytes; it had this many.
    SignatureLength(usize),
    /// The signature does not verify under the embedded key.
    SignatureMismatch,
    /// The configuration is not valid UTF-8.
    NotUtf8,
    /// `api_url` or `api_fingerprint` is missing or empty.
    MissingFields,
    /// The response would hold a NUL character, which a C string cannot.
    NulInResponse,
}

/// The message reported for each refusal.
pub open spec fn error_message(e: ConfigError) -> Seq<char> {
    match e {
        ConfigError::SignatureLength(n) => "Signature mismatch: expected 64 bytes, got "@ + decimal(
            n as nat,
        ),
        ConfigError::SignatureMismatch => "Signature mismatch"@,
        ConfigError::NotUtf8 => "Internal error: config is not valid UTF-8"@,
        ConfigError::MissingFields => "Signature mismatch: missing api_url or api_fingerprint"@,
        ConfigError::NulInResponse => "Internal error: result contains NUL byte"@,
    }
}

impl ConfigError {
    /// The message for this refusal.
    pub fn message(&self) -> (m: String)
        ensures
            m@ == error_message(*self),
    {
        match self {
            ConfigError::SignatureLength(n) => {
                let mut m = String::from_str("Signature mismatch: expected 64 bytes, got ");
                let digits = usize_to_decimal(*n);
                m.append(digits.as_str());
                m
            },
            ConfigError::SignatureMismatch => String::from_str("Signature mismatch"),
            ConfigError::NotUtf8 => String::from_str("Internal error: config is not valid UTF-8"),
            ConfigError::MissingFields => String::from_str(
                "Signature mismatch: missing api_url or api_fingerprint",
            ),
            ConfigError::NulInResponse => String::from_str("Internal error: result contains NUL byte"),
        }
    }
}

/// What a configuration whose signature has been verified yields: the
/// response text, or why it was refused.
pub open spec fn signed_config_outcome(json: Seq<u8>) -> Result<Seq<char>, ConfigError> {
    if !valid_utf8(json) {
        Err(ConfigError::NotUtf8)
    } else {
        match config_fields(decode_utf8(json)) {
            None => Err(ConfigError::MissingFields),
            Some((url, fp)) => if config_response(url, fp).contains('\0') {
                Err(ConfigError::NulInResponse)
            } else {
                Ok(config_response(url, fp))
            },
        }
    }
}

/// What verifying a configuration with a given signature yields: the
/// response text, or why the configuration was refused. The checks come in
/// this order: signature length, signature, UTF-8, fields.
pub open spec fn config_outcome(json: Seq<u8>, sig: Seq<u8>) -> Result<Seq<char>, ConfigError> {
    if sig.len() != 64 {
        Err(ConfigError::SignatureLength(sig.len() as usize))
    } else if !config_signature_valid(json, sig) {
        Err(ConfigError::SignatureMismatch)
    } else {
        signed_config_outcome(json)
    }
}

/// Read a configuration whose signature has been verified: the fields,
/// returned as the response JSON object.
pub fn read_signed_config(json: &[u8]) -> (r: Result<String, ConfigError>)
    ensures
        match r {
            Ok(text) => signed_config_outcome(json@) == Ok::<Seq<char>, ConfigError>(text@),
            Err(e) => signed_config_outcome(json@) == Err::<Seq<char>, ConfigError>(e),
        },
{
    let json_str = match from_utf8(json) {
        Some(s) => s,
        None => return Err(ConfigError::NotUtf8),
    };
    let (api_url, api_fingerprint) = match extract_config_fields(json_str) {
        Some(v) => v,
        None => return Err(ConfigError::MissingFields),
    };
    let fp_upper = to_uppercase(api_fingerprint.as_str());
    let mut out = String::from_str("{\"api_url\":\"");
    push_escaped(&mut out, api_url.as_str());
    out.append("\",\"api_fingerprint\":\"");
    push_escaped(&mut out, fp_upper.as_str());
    out.append("\"}");
    if has_nul(out.as_str()) {
        return Err(ConfigError::NulInResponse);
    }
    Ok(out)
}

/// Whether `s` holds a NUL character.
fn has_nul(s: &str) -> (r: bool)
    ensures
        r == s@.contains('\0'),
{
    let chars = chars_of(s);
    let mut i: usize = 0;
    while i < chars.len()
        invariant
            i <= chars@.len(),
            chars@ == s@,
            forall|k: int| 0 <= k < i ==> chars@[k] != '\0',
        decreases chars@.len() - i,
    {
        if chars[i] == '\0' {
            return true;
        }
        i += 1;
    }
    false
}

/// Verify a signed configuration and return `api_url` and
/// `api_fingerprint` as a JSON object.
pub fn verify_config(json: &[u8], sig: &[u8]) -> (r: Result<String, ConfigError>)
    ensures
        match r {
            Ok(text) => config_outcome(json@, sig@) == Ok::<Seq<char>, ConfigError>(text@),
            Err(e) => config_outcome(json@, sig@) == Err::<Seq<char>, ConfigError>(e),
        },
{
    if sig.len() != 64 {
        return Err(ConfigError::SignatureLength(sig.len()));
    }
    if !verify_signature_multi(json, sig) {
        return Err(ConfigError::SignatureMismatch);
    }
    read_signed_config(json)
}

/// A configuration is accepted only with a 64-byte signature that verifies
/// under the embedded key.
pub proof fn lemma_accepted_config_is_signed(json: Seq<u8>, sig: Seq<u8>)
    requires
        config_outcome(json, sig) is Ok,
    ensures
        sig.len() == 64,
        config_signature_valid(json, sig),
        valid_utf8(json),
        config_fields(decode_utf8(json)) is Some,
{
}

/// The response carries `api_url` exactly as the configuration gives it:
/// a value read from the configuration holds no double quote, so escaping
/// leaves it unchanged.
pub proof fn lemma_response_keeps_url(json: Seq<u8>, sig: Seq<u8>)
    requires
        config_outcome(json, sig) is Ok,
    ensures
        ({
            let (url, fp) = config_fields(decode_utf8(json)).unwrap();
            config_outcome(json, sig) == Ok::<Seq<char>, ConfigError>(
                "{\"api_url\":\""@ + url + "\",\"api_fingerprint\":\""@ + escape_quotes(
                    unicode_uppercase(fp),
                ) + "\"}"@,
            )
        }),
{
    let text = decode_utf8(json);
    lemma_json_value_has_no_quote(text, "api_url"@);
    let (url, fp) = config_fields(text).unwrap();
    lemma_escape_without_quotes(url);
}

} // verus!
