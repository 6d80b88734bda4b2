//! Masking secrets in texts and JSON values.
use crate::json::{Json, JsonView};
use crate::text::bytes;
use crate::text::chars;
use crate::text::chars::{
    concat2, concat3, from_range, is_space_char, own, same, same_ignoring_case, to_chars,
    to_lowercase_ascii,
};
use crate::text::find;
use crate::text::find::{contains, contains_char, ends_with, replace_all, trim};
use crate::text::split;
use crate::text::split::{join, lines, split_once, word_end_chars};
use vstd::prelude::*;
use vstd::string::*;

verus! {

broadcast use chars::lemma_texts_push, chars::lemma_texts_empty;

/// An environment variable with its value.
#[derive(Debug, Clone, PartialEq, Eq)]
pub struct EnvValue {
    pub key: String,
    pub value: String,
}

/// What a list of environment variables stands for.
pub open spec fn env_view(v: Seq<EnvValue>) -> Seq<(Seq<char>, Seq<char>)> {
    Seq::new(v.len(), |i: int| (v[i].key@, v[i].value@))
}

/// The environment variables that hold secrets.
pub open spec fn secret_variables() -> Seq<Seq<char>> {
    seq![
        "INCEPTION_API_KEY"@,
        "MERCURY_API_KEY"@,
        "OPENAI_API_KEY"@,
        "ANTHROPIC_API_KEY"@,
        "GITHUB_TOKEN"@,
        "GH_TOKEN"@,
        "AWS_ACCESS_KEY_ID"@,
        "AWS_SECRET_ACCESS_KEY"@,
        "AWS_SESSION_TOKEN"@,
    ]
}

/// The words that mark a secret.
pub open spec fn markers() -> Seq<Seq<char>> {
    seq!["token"@, "api_key"@, "apikey"@, "authorization"@, "password"@, "secret"@]
}

/// The endings that mark a secret.
pub open spec fn marker_endings() -> Seq<Seq<char>> {
    seq![
        "_token"@,
        "_api_key"@,
        "_apikey"@,
        "_password"@,
        "_secret"@,
        "-token"@,
        "-api-key"@,
        "-apikey"@,
        "-password"@,
        "-secret"@,
    ]
}

/// The environment variables that hold secrets, in the order in which their values are
/// masked.
pub fn sensitive_env_vars() -> (r: Vec<String>)
    ensures
        chars::texts(r@) == secret_variables(),
{
    let r = vec![
        own("INCEPTION_API_KEY"),
        own("MERCURY_API_KEY"),
        own("OPENAI_API_KEY"),
        own("ANTHROPIC_API_KEY"),
        own("GITHUB_TOKEN"),
        own("GH_TOKEN"),
        own("AWS_ACCESS_KEY_ID"),
        own("AWS_SECRET_ACCESS_KEY"),
        own("AWS_SESSION_TOKEN"),
    ];
    proof {
        assert(chars::texts(r@) =~= secret_variables());
    }
    r
}

fn sensitive_markers() -> (r: Vec<String>)
    ensures
        chars::texts(r@) == markers(),
{
    let r = vec![
        own("token"),
        own("api_key"),
        own("apikey"),
        own("authorization"),
        own("password"),
        own("secret"),
    ];
    proof {
        assert(chars::texts(r@) =~= markers());
    }
    r
}

fn sensitive_endings() -> (r: Vec<String>)
    ensures
        chars::texts(r@) == marker_endings(),
{
    let r = vec![
        own("_token"),
        own("_api_key"),
        own("_apikey"),
        own("_password"),
        own("_secret"),
        own("-token"),
        own("-api-key"),
        own("-apikey"),
        own("-password"),
        own("-secret"),
    ];
    proof {
        assert(chars::texts(r@) =~= marker_endings());
    }
    r
}

/// Whether a key names a secret: it is a secret variable, or, trimmed and in lower case, a
/// marker, a marker followed by `_value`, or a name with a marked ending.
pub open spec fn is_secret_key(key: Seq<char>) -> bool {
    let name = chars::lowercase(find::trimmed(key));
    ||| exists|i: int|
        0 <= i < secret_variables().len() && chars::lowercase(#[trigger] secret_variables()[i])
            == chars::lowercase(key)
    ||| exists|i: int|
        0 <= i < markers().len() && (name == #[trigger] markers()[i] || name == markers()[i]
            + "_value"@)
    ||| exists|i: int|
        0 <= i < marker_endings().len() && find::has_suffix(name, #[trigger] marker_endings()[i])
}

/// Whether a key names a secret.
pub fn is_sensitive_key(key: &str) -> (r: bool)
    ensures
        r == is_secret_key(key@),
{
    let trimmed = trim(key);
    let name = to_lowercase_ascii(trimmed.as_str());
    let names = sensitive_env_vars();
    let words = sensitive_markers();
    let endings = sensitive_endings();
    let mut i: usize = 0;
    while i < names.len()
        invariant
            chars::texts(names@) == secret_variables(),
            i <= names@.len(),
            forall|j: int|
                0 <= j < i ==> chars::lowercase(#[trigger] secret_variables()[j])
                    != chars::lowercase(key@),
        decreases names@.len() - i,
    {
        proof {
            assert(chars::texts(names@)[i as int] == names@[i as int]@);
        }
        if same_ignoring_case(names[i].as_str(), key) {
            return true;
        }
        i = i + 1;
    }
    let mut k: usize = 0;
    while k < words.len()
        invariant
            name@ == chars::lowercase(find::trimmed(key@)),
            chars::texts(words@) == markers(),
            k <= words@.len(),
            forall|j: int|
                0 <= j < k ==> name@ != #[trigger] markers()[j] && name@ != markers()[j]
                    + "_value"@,
        decreases words@.len() - k,
    {
        proof {
            assert(chars::texts(words@)[k as int] == words@[k as int]@);
        }
        let with_value = concat2(words[k].as_str(), "_value");
        if same(name.as_str(), words[k].as_str()) || same(name.as_str(), with_value.as_str()) {
            return true;
        }
        k = k + 1;
    }
    let mut m: usize = 0;
    while m < endings.len()
        invariant
            name@ == chars::lowercase(find::trimmed(key@)),
            chars::texts(endings@) == marker_endings(),
            m <= endings@.len(),
            forall|j: int|
                0 <= j < m ==> !find::has_suffix(name@, #[trigger] marker_endings()[j]),
        decreases endings@.len() - m,
    {
        proof {
            assert(chars::texts(endings@)[m as int] == endings@[m as int]@);
        }
        if ends_with(name.as_str(), endings[m].as_str()) {
            return true;
        }
        m = m + 1;
    }
    proof {
        assert(chars::texts(names@).len() == names@.len());
        assert(chars::texts(words@).len() == words@.len());
        assert(chars::texts(endings@).len() == endings@.len());
    }
    false
}

/// The text with the value of a secret variable replaced. Values of fewer than four bytes
/// are left alone.
pub open spec fn value_masked(text: Seq<char>, key: Seq<char>, value: Seq<char>) -> Seq<char> {
    let v = find::trimmed(value);
    if bytes::byte_len(v) >= 4 && find::has_text(text, v) {
        find::replaced_from(text, v, "[REDACTED:"@ + key + "]"@, 0)
    } else {
        text
    }
}

/// The text with the values of all given secret variables replaced, one after the other.
pub open spec fn values_masked(text: Seq<char>, env: Seq<(Seq<char>, Seq<char>)>) -> Seq<char>
    decreases env.len(),
{
    if env.len() == 0 {
        text
    } else {
        value_masked(values_masked(text, env.drop_last()), env.last().0, env.last().1)
    }
}

fn mask_values(text: &str, env: &[EnvValue]) -> (r: String)
    ensures
        r@ == values_masked(text@, env_view(env@)),
{
    let ghost all = env_view(env@);
    let mut out = own(text);
    let mut i: usize = 0;
    while i < env.len()
        invariant
            all == env_view(env@),
            i <= env@.len(),
            out@ == values_masked(text@, all.take(i as int)),
        decreases env@.len() - i,
    {
        proof {
            assert(all.take(i + 1).drop_last() =~= all.take(i as int));
        }
        let v = trim(env[i].value.as_str());
        if bytes::count_bytes(v.as_str()) >= 4 && contains(out.as_str(), v.as_str()) {
            let mark = concat3("[REDACTED:", env[i].key.as_str(), "]");
            out = replace_all(out.as_str(), v.as_str(), mark.as_str());
        }
        i = i + 1;
    }
    proof {
        assert(all.take(all.len() as int) =~= all);
    }
    out
}

/// A word with its value masked if its key names a secret.
pub open spec fn word_masked(w: Seq<char>) -> Seq<char> {
    match split::cut_at(w, '=') {
        Some(p) if is_secret_key(p.0) => p.0 + "=[REDACTED]"@,
        _ => match split::cut_at(w, ':') {
            Some(p) if is_secret_key(p.0) => p.0 + ":[REDACTED]"@,
            _ => w,
        },
    }
}

/// Masks the value of a word whose key names a secret.
pub fn redact_sensitive_token(token: &str) -> (r: String)
    ensures
        r@ == word_masked(token@),
{
    match split_once(token, '=') {
        Some(p) => {
            if is_sensitive_key(p.0.as_str()) {
                return concat2(p.0.as_str(), "=[REDACTED]");
            }
        },
        None => {},
    }
    match split_once(token, ':') {
        Some(p) => {
            if is_sensitive_key(p.0.as_str()) {
                return concat2(p.0.as_str(), ":[REDACTED]");
            }
        },
        None => {},
    }
    own(token)
}

/// The line from position `i` on with every word masked; white space stays.
pub open spec fn words_masked(line: Seq<char>, i: int) -> Seq<char>
    decreases line.len() - i,
{
    if i < 0 || i >= line.len() {
        Seq::empty()
    } else if chars::is_space(line[i]) {
        seq![line[i]] + words_masked(line, i + 1)
    } else {
        let end = split::word_end(line, i);
        if i < end <= line.len() {
            word_masked(line.subrange(i, end)) + words_masked(line, end)
        } else {
            Seq::empty()
        }
    }
}

fn mask_words(line: &str) -> (r: String)
    ensures
        r@ == words_masked(line@, 0),
{
    let x = to_chars(line);
    let mut out = String::new();
    let mut i: usize = 0;
    proof {
        assert(out@ + words_masked(line@, 0) =~= words_masked(line@, 0));
    }
    while i < x.len()
        invariant
            x@ == line@,
            i <= x@.len(),
            out@ + words_masked(line@, i as int) == words_masked(line@, 0),
        decreases x@.len() - i,
    {
        let ghost before = out@;
        if is_space_char(x[i]) {
            out.push(x[i]);
            proof {
                assert(before + (seq![line@[i as int]] + words_masked(line@, i + 1)) =~= out@
                    + words_masked(line@, i + 1));
            }
            i = i + 1;
        } else {
            let end = word_end_chars(x.as_slice(), i);
            let word = from_range(x.as_slice(), i, end);
            let masked = redact_sensitive_token(word.as_str());
            out.append(masked.as_str());
            proof {
                assert(before + (word_masked(line@.subrange(i as int, end as int)) + words_masked(
                    line@,
                    end as int,
                )) =~= out@ + words_masked(line@, end as int));
            }
            i = end;
        }
    }
    proof {
        assert(out@ + Seq::<char>::empty() =~= out@);
    }
    out
}

/// The secret key that a line begins with, before a colon.
pub open spec fn colon_key(line: Seq<char>) -> Option<Seq<char>> {
    match split::cut_at(line, ':') {
        Some(p) if is_secret_key(find::trimmed(p.0)) => Some(find::trimmed(p.0)),
        _ => None,
    }
}

fn sensitive_colon_prefix(line: &str) -> (r: Option<String>)
    ensures
        chars::opt_text(r) == colon_key(line@),
{
    match split_once(line, ':') {
        Some(p) => {
            let key = trim(p.0.as_str());
            if is_sensitive_key(key.as_str()) {
                Some(key)
            } else {
                None
            }
        },
        None => None,
    }
}

/// A line with its words masked; all that follows a secret key and a colon is masked too,
/// unless the line holds an assignment.
pub open spec fn line_masked(line: Seq<char>) -> Seq<char> {
    let words = words_masked(line, 0);
    if !line.contains('=') && colon_key(words) is Some {
        colon_key(words)->0 + ": [REDACTED]"@
    } else {
        words
    }
}

fn mask_line(line: &str) -> (r: String)
    ensures
        r@ == line_masked(line@),
{
    let words = mask_words(line);
    if !contains_char(line, '=') {
        match sensitive_colon_prefix(words.as_str()) {
            Some(key) => {
                return concat2(key.as_str(), ": [REDACTED]");
            },
            None => {},
        }
    }
    words
}

/// Whether a line holds a word that marks a secret.
pub open spec fn has_marker(line: Seq<char>) -> bool {
    exists|i: int|
        0 <= i < markers().len() && find::has_text(
            chars::lowercase(line),
            #[trigger] markers()[i],
        )
}

/// A line whose value is masked if the line holds a word that marks a secret.
pub open spec fn marked_line_masked(line: Seq<char>) -> Seq<char> {
    if has_marker(line) {
        match split::cut_at(line, '=') {
            Some(p) => p.0 + "=[REDACTED]"@,
            None => match split::cut_at(line, ':') {
                Some(p) => p.0 + ": [REDACTED]"@,
                None => line,
            },
        }
    } else {
        line
    }
}

fn is_marked(line: &str) -> (r: bool)
    ensures
        r == has_marker(line@),
{
    let low = to_lowercase_ascii(line);
    let words = sensitive_markers();
    let mut k: usize = 0;
    while k < words.len()
        invariant
            low@ == chars::lowercase(line@),
            chars::texts(words@) == markers(),
            k <= words@.len(),
            forall|j: int| 0 <= j < k ==> !find::has_text(low@, #[trigger] markers()[j]),
        decreases words@.len() - k,
    {
        proof {
            assert(chars::texts(words@)[k as int] == words@[k as int]@);
        }
        if contains(low.as_str(), words[k].as_str()) {
            return true;
        }
        k = k + 1;
    }
    proof {
        assert(chars::texts(words@).len() == words@.len());
    }
    false
}

fn mask_marked_line(line: &str) -> (r: String)
    ensures
        r@ == marked_line_masked(line@),
{
    if is_marked(line) {
        match split_once(line, '=') {
            Some(p) => {
                return concat2(p.0.as_str(), "=[REDACTED]");
            },
            None => {},
        }
        match split_once(line, ':') {
            Some(p) => {
                return concat2(p.0.as_str(), ": [REDACTED]");
            },
            None => {},
        }
    }
    own(line)
}

/// How secrets are found.
#[derive(Debug, Clone, Copy, PartialEq, Eq, Structural)]
pub enum Masking {
    /// Word by word, by the key of each word.
    Words,
    /// Line by line, by the words that a line holds.
    Lines,
}

/// One line masked.
pub open spec fn masked_line(m: Masking, line: Seq<char>) -> Seq<char> {
    match m {
        Masking::Words => line_masked(line),
        Masking::Lines => marked_line_masked(line),
    }
}

/// The lines masked.
pub open spec fn masked_lines(m: Masking, ls: Seq<Seq<char>>) -> Seq<Seq<char>> {
    Seq::new(ls.len(), |i: int| masked_line(m, ls[i]))
}

/// The text without secrets. A line break at the end stays.
pub open spec fn masked(m: Masking, text: Seq<char>, env: Seq<(Seq<char>, Seq<char>)>) -> Seq<
    char,
> {
    let out = split::joined(
        masked_lines(m, split::lines_of(values_masked(text, env))),
        "\n"@,
    );
    if find::has_suffix(text, "\n"@) && !find::has_suffix(out, "\n"@) {
        out + "\n"@
    } else {
        out
    }
}

/// Masks the secrets of a text.
pub fn mask_text(m: Masking, text: &str, env: &[EnvValue]) -> (r: String)
    ensures
        r@ == masked(m, text@, env_view(env@)),
{
    let replaced = mask_values(text, env);
    let ls = lines(replaced.as_str());
    let ghost all = chars::texts(ls@);
    let mut out: Vec<String> = Vec::new();
    let mut i: usize = 0;
    while i < ls.len()
        invariant
            all == chars::texts(ls@),
            i <= ls@.len(),
            out@.len() == i,
            forall|j: int| 0 <= j < i ==> (#[trigger] out@[j])@ == masked_line(m, all[j]),
        decreases ls@.len() - i,
    {
        proof {
            assert(all[i as int] == ls@[i as int]@);
        }
        let l = match m {
            Masking::Words => mask_line(ls[i].as_str()),
            Masking::Lines => mask_marked_line(ls[i].as_str()),
        };
        out.push(l);
        i = i + 1;
    }
    proof {
        assert(chars::texts(out@) =~= masked_lines(m, all));
    }
    let mut joined = join(out.as_slice(), "\n");
    if ends_with(text, "\n") && !ends_with(joined.as_str(), "\n") {
        joined.append("\n");
    }
    joined
}

/// Masks the secrets of a text word by word.
pub fn redact_sensitive_text(text: &str, env: &[EnvValue]) -> (r: String)
    ensures
        r@ == masked(Masking::Words, text@, env_view(env@)),
{
    mask_text(Masking::Words, text, env)
}

/// Masks the secrets of a text line by line.
pub fn redact_secrets(text: &str, env: &[EnvValue]) -> (r: String)
    ensures
        r@ == masked(Masking::Lines, text@, env_view(env@)),
{
    mask_text(Masking::Lines, text, env)
}

/// The value without secrets: every text is masked. Word by word, the value of a field whose
/// key names a secret is masked whole.
pub open spec fn masked_json(m: Masking, j: JsonView, env: Seq<(Seq<char>, Seq<char>)>) -> JsonView
    decreases j,
{
    match j {
        JsonView::Text(t) => JsonView::Text(masked(m, t, env)),
        JsonView::List(s) => JsonView::List(
            Seq::new(
                s.len(),
                |i: int|
                    if 0 <= i < s.len() {
                        masked_json(m, s[i], env)
                    } else {
                        JsonView::Null
                    },
            ),
        ),
        JsonView::Object(s) => JsonView::Object(
            Seq::new(
                s.len(),
                |i: int|
                    if 0 <= i < s.len() {
                        (
                            s[i].0,
                            if m == Masking::Words && is_secret_key(s[i].0) {
                                JsonView::Text("[REDACTED]"@)
                            } else {
                                masked_json(m, s[i].1, env)
                            },
                        )
                    } else {
                        (Seq::<char>::empty(), JsonView::Null)
                    },
            ),
        ),
        other => other,
    }
}

/// Masks the secrets of a JSON value.
pub fn mask_json(m: Masking, value: &Json, env: &[EnvValue]) -> (r: Json)
    ensures
        r@ == masked_json(m, value@, env_view(env@)),
    decreases *value,
{
    match value {
        Json::Null => Json::Null,
        Json::Bool(b) => Json::Bool(*b),
        Json::Number(n) => Json::Number(own(n.as_str())),
        Json::Text(t) => Json::Text(mask_text(m, t.as_str(), env)),
        Json::List(items) => {
            let mut out: Vec<Json> = Vec::new();
            let mut i: usize = 0;
            while i < items.len()
                invariant
                    *value == Json::List(*items),
                    i <= items@.len(),
                    out@.len() == i,
                    forall|j: int|
                        0 <= j < i ==> (#[trigger] out@[j])@ == masked_json(
                            m,
                            items@[j]@,
                            env_view(env@),
                        ),
                decreases items@.len() - i,
            {
                proof {
                    assert(decreases_to!(*value => value->List_0));
                    assert(decreases_to!(*items => items@));
                    assert(decreases_to!(items@ => items@[i as int]));
                }
                let x = mask_json(m, &items[i], env);
                out.push(x);
                i = i + 1;
            }
            let r = Json::List(out);
            proof {
                assert(r@->List_0 =~= masked_json(m, value@, env_view(env@))->List_0);
            }
            r
        },
        Json::Object(fields) => {
            let mut out: Vec<(String, Json)> = Vec::new();
            let mut i: usize = 0;
            while i < fields.len()
                invariant
                    *value == Json::Object(*fields),
                    i <= fields@.len(),
                    out@.len() == i,
                    forall|j: int|
                        0 <= j < i ==> (#[trigger] out@[j]).0@ == fields@[j].0@ && out@[j].1@ == (
                        if m == Masking::Words && is_secret_key(fields@[j].0@) {
                            JsonView::Text("[REDACTED]"@)
                        } else {
                            masked_json(m, fields@[j].1@, env_view(env@))
                        }),
                decreases fields@.len() - i,
            {
                proof {
                    assert(decreases_to!(*value => value->Object_0));
                    assert(decreases_to!(*fields => fields@));
                    assert(decreases_to!(fields@ => fields@[i as int]));
                    assert(decreases_to!(fields@[i as int] => fields@[i as int].1));
                }
                let key = own(fields[i].0.as_str());
                let x = if m == Masking::Words && is_sensitive_key(key.as_str()) {
                    Json::Text(own("[REDACTED]"))
                } else {
                    mask_json(m, &fields[i].1, env)
                };
                out.push((key, x));
                i = i + 1;
            }
            let r = Json::Object(out);
            proof {
                assert(r@->Object_0 =~= masked_json(m, value@, env_view(env@))->Object_0);
            }
            r
        },
    }
}

/// Masks the secrets of a JSON value word by word.
pub fn redact_sensitive_value(value: &Json, env: &[EnvValue]) -> (r: Json)
    ensures
        r@ == masked_json(Masking::Words, value@, env_view(env@)),
{
    mask_json(Masking::Words, value, env)
}

/// Masks the secrets of a JSON value line by line.
pub fn redact_json_value(value: &Json, env: &[EnvValue]) -> (r: Json)
    ensures
        r@ == masked_json(Masking::Lines, value@, env_view(env@)),
{
    mask_json(Masking::Lines, value, env)
}

/// A word that assigns to a secret key is masked the same whatever the value.
pub proof fn law_assigned_secrets_are_masked(key: Seq<char>, value: Seq<char>)
    requires
        is_secret_key(key),
        !key.contains('='),
    ensures
        word_masked(key + "="@ + value) == key + "=[REDACTED]"@,
{
    reveal_strlit("=");
    let w = key + "="@ + value;
    assert(w[key.len() as int] == '=');
    find::lemma_index_from(w, '=', 0);
    assert forall|j: int| 0 <= j < key.len() implies w[j] != '=' by {
        assert(key[j] == w[j]);
        assert(key.contains(key[j]));
    }
    assert(find::index_from(w, '=', 0) == Some(key.len() as int));
    assert(w.subrange(0, key.len() as int) =~= key);
}

/// A word that holds no secret key stays as it is.
pub proof fn law_other_words_stay(w: Seq<char>)
    requires
        !w.contains('='),
        !w.contains(':'),
    ensures
        word_masked(w) == w,
{
    find::lemma_index_from(w, '=', 0);
    find::lemma_index_from(w, ':', 0);
}

/// A field under a secret key is masked the same whatever its value.
pub proof fn law_secret_fields_are_masked(
    fields: Seq<(Seq<char>, JsonView)>,
    i: int,
    env: Seq<(Seq<char>, Seq<char>)>,
)
    requires
        0 <= i < fields.len(),
        is_secret_key(fields[i].0),
    ensures
        masked_json(Masking::Words, JsonView::Object(fields), env)->Object_0[i] == (
            fields[i].0,
            JsonView::Text("[REDACTED]"@),
        ),
{
}

} // verus!
