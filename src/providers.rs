//! Provider names and API keys as users write them.
use vstd::prelude::*;
use crate::sentences::{trim, trimmed};
use crate::text::{chars_of, string_of, same_text};

verus! {

/// A provider, optionally with a model: `name` or `name:model`.
#[derive(Debug, Clone)]
pub struct ProviderSpec {
    pub name: String,
    pub model: String,
}

/// Index of the first `c` in `s`, if any.
pub open spec fn first_index_of(s: Seq<char>, c: char) -> Option<int> {
    if exists|i: int| 0 <= i < s.len() && s[i] == c {
        Some(choose|i: int| 0 <= i < s.len() && s[i] == c && forall|j: int| 0 <= j < i ==> s[j] != c)
    } else {
        None
    }
}

fn find_char(chars: &Vec<char>, c: char) -> (r: Option<usize>)
    ensures
        match r {
            Some(i) => i < chars.len() && chars@[i as int] == c && forall|j: int| 0 <= j < i ==> chars@[j] != c,
            None => forall|j: int| 0 <= j < chars.len() ==> chars@[j] != c,
        },
{
    let mut i: usize = 0;
    while i < chars.len()
        invariant
            i <= chars.len(),
            forall|j: int| 0 <= j < i ==> chars@[j] != c,
        decreases chars.len() - i,
    {
        if chars[i] == c {
            return Some(i);
        }
        i += 1;
    }
    None
}

/// Splits `spec` at its first `:` into a provider name and a model; without a `:` the
/// whole text is the name and the model is empty.
pub fn parse_provider(spec: &str) -> (r: ProviderSpec)
    ensures
        match first_index_of(spec@, ':') {
            Some(i) => r.name@ == spec@.take(i) && r.model@ == spec@.skip(i + 1),
            None => r.name@ == spec@ && r.model@ == Seq::<char>::empty(),
        },
{
    let chars = chars_of(spec);
    match find_char(&chars, ':') {
        Some(i) => {
            proof {
                let k = choose|k: int| 0 <= k < spec@.len() && spec@[k] == ':' && forall|j: int| 0 <= j < k ==> spec@[j] != ':';
                if k < i {
                } else if i < k {
                    assert(spec@[i as int] == ':');
                }
                assert(k == i);
            }
            let name = string_of(&chars, 0, i);
            let model = string_of(&chars, i + 1, chars.len());
            assert(name@ =~= spec@.take(i as int));
            assert(model@ =~= spec@.skip(i + 1));
            ProviderSpec { name, model }
        },
        None => {
            let name = string_of(&chars, 0, chars.len());
            assert(name@ =~= spec@);
            ProviderSpec { name, model: String::new() }
        },
    }
}

/// `s` starts with `Bearer ` in any letter case.
pub open spec fn has_bearer_prefix(s: Seq<char>) -> bool {
    s.len() >= 7 && forall|i: int| 0 <= i < 7 ==> #[trigger] s[i] == "bearer "@[i] || s[i] == "BEARER "@[i]
}

/// `s` with one pair of matching surrounding quotes (`"` or `'`) taken off.
pub open spec fn unquoted(s: Seq<char>) -> Seq<char> {
    if s.len() >= 2 && ((s[0] == '"' && s.last() == '"') || (s[0] == '\'' && s.last() == '\'')) {
        s.subrange(1, s.len() - 1)
    } else {
        s
    }
}

/// The key as it is meant: trimmed, one pair of surrounding quotes removed, and a
/// leading `Bearer ` (any case) removed.
pub open spec fn cleaned_key(raw: Seq<char>) -> Seq<char> {
    let u = unquoted(trim(raw));
    trim(if has_bearer_prefix(u) { u.skip(7) } else { u })
}

/// Cleans an API key pasted by a user: surrounding whitespace, one pair of wrapping
/// quotes, and an `Authorization`-style `Bearer ` prefix are removed.
pub fn clean_api_key(raw: &str) -> (r: String)
    ensures
        r@ == cleaned_key(raw@),
{
    let t = trimmed(raw);
    let tc = chars_of(t.as_str());
    let n = tc.len();
    let (lo, hi) = if n >= 2 && ((tc[0] == '"' && tc[n - 1] == '"') || (tc[0] == '\'' && tc[n - 1] == '\'')) {
        (1, n - 1)
    } else {
        (0, n)
    };
    let ghost u = tc@.subrange(lo as int, hi as int);
    assert(u =~= unquoted(trim(raw@)));
    let bc = chars_of("bearer ");
    let uc = chars_of("BEARER ");
    proof {
        reveal_strlit("bearer ");
        reveal_strlit("BEARER ");
    }
    let mut is_bearer = hi - lo >= 7;
    if is_bearer {
        let mut i: usize = 0;
        while i < 7
            invariant
                hi - lo >= 7,
                lo <= hi <= tc.len(),
                u == tc@.subrange(lo as int, hi as int),
                bc@ == "bearer "@,
                uc@ == "BEARER "@,
                bc@.len() == 7,
                uc@.len() == 7,
                i <= 7,
                is_bearer <==> forall|j: int| 0 <= j < i ==> #[trigger] u[j] == "bearer "@[j] || u[j] == "BEARER "@[j],
            decreases 7 - i,
        {
            assert(u[i as int] == tc@[lo + i]);
            if tc[lo + i] != bc[i] && tc[lo + i] != uc[i] {
                is_bearer = false;
            }
            i += 1;
        }
    }
    let start = if is_bearer { lo + 7 } else { lo };
    let rest = string_of(&tc, start, hi);
    assert(rest@ =~= (if has_bearer_prefix(u) { u.skip(7) } else { u }));
    trimmed(rest.as_str())
}

/// `needle` occurs in `hay` at index `i`.
pub open spec fn occurs_at(hay: Seq<char>, needle: Seq<char>, i: int) -> bool {
    0 <= i && i + needle.len() <= hay.len() && hay.subrange(i, i + needle.len()) == needle
}

/// `needle` occurs somewhere in `hay`.
pub open spec fn contains_text(hay: Seq<char>, needle: Seq<char>) -> bool {
    exists|i: int| #[trigger] occurs_at(hay, needle, i)
}

/// Whether `needle` occurs in `hay`.
pub fn text_contains(hay: &str, needle: &str) -> (r: bool)
    ensures
        r == contains_text(hay@, needle@),
{
    let h = chars_of(hay);
    let n = chars_of(needle);
    if n.len() > h.len() {
        assert forall|i: int| !#[trigger] occurs_at(hay@, needle@, i) by {}
        return false;
    }
    let mut i: usize = 0;
    while i <= h.len() - n.len()
        invariant
            h@ == hay@,
            n@ == needle@,
            n.len() <= h.len(),
            i <= h.len() - n.len() + 1,
            forall|k: int| 0 <= k < i ==> !#[trigger] occurs_at(hay@, needle@, k),
        decreases h.len() - i,
    {
        let mut j: usize = 0;
        let mut ok = true;
        while j < n.len()
            invariant
                h@ == hay@,
                n@ == needle@,
                i + n.len() <= h.len(),
                j <= n.len(),
                ok <==> forall|m: int| 0 <= m < j ==> h@[i + m] == n@[m],
            decreases n.len() - j,
        {
            if h[i + j] != n[j] {
                ok = false;
            }
            j += 1;
        }
        if ok {
            assert(hay@.subrange(i as int, i + needle@.len()) =~= needle@);
            assert(occurs_at(hay@, needle@, i as int));
            return true;
        }
        proof {
            if occurs_at(hay@, needle@, i as int) {
                assert forall|m: int| 0 <= m < n.len() implies h@[i + m] == n@[m] by {
                    assert(hay@.subrange(i as int, i + needle@.len())[m] == needle@[m]);
                }
            }
        }
        i += 1;
    }
    assert forall|k: int| !#[trigger] occurs_at(hay@, needle@, k) by {
        if 0 <= k < i {
        }
    }
    false
}

/// Whether `url` points at Anthropic's own API, which takes its key in `x-api-key`.
pub fn is_official_anthropic_url(url: &str) -> (r: bool)
    ensures
        r == contains_text(url@, "api.anthropic.com"@),
{
    text_contains(url, "api.anthropic.com")
}

/// The model used for a provider when none is named. Anthropic has none built in: its
/// model is named in the request (`anthropic:<model>`) or chosen by the caller.
pub open spec fn default_model_of(name: Seq<char>) -> Option<Seq<char>> {
    if name == "openai"@ {
        Some("gpt-5.2"@)
    } else if name == "gemini"@ {
        Some("gemini-3-pro-preview"@)
    } else if name == "glm"@ {
        Some("glm-4-flash"@)
    } else if name == "deepseek"@ {
        Some("deepseek-chat"@)
    } else {
        None
    }
}

pub fn default_model(name: &str) -> (r: Option<&'static str>)
    ensures
        match r {
            Some(m) => default_model_of(name@) == Some(m@),
            None => default_model_of(name@) is None,
        },
{
    if same_text(name, "openai") {
        Some("gpt-5.2")
    } else if same_text(name, "gemini") {
        Some("gemini-3-pro-preview")
    } else if same_text(name, "glm") {
        Some("glm-4-flash")
    } else if same_text(name, "deepseek") {
        Some("deepseek-chat")
    } else {
        None
    }
}

/// The key of the first entry for provider `name`, if any.
pub open spec fn key_of(keys: Seq<(String, String)>, name: Seq<char>) -> Option<Seq<char>>
    decreases keys.len(),
{
    if keys.len() == 0 {
        None
    } else if keys[0].0@ == name {
        Some(keys[0].1@)
    } else {
        key_of(keys.drop_first(), name)
    }
}

/// The key available for provider `name` among `(provider, key)` entries.
pub fn key_for(keys: &[(String, String)], name: &str) -> (r: Option<String>)
    ensures
        match r {
            Some(k) => key_of(keys@, name@) == Some(k@),
            None => key_of(keys@, name@) is None,
        },
{
    let mut i: usize = 0;
    assert(keys@.skip(0) =~= keys@);
    while i < keys.len()
        invariant
            i <= keys.len(),
            key_of(keys@, name@) == key_of(keys@.skip(i as int), name@),
        decreases keys.len() - i,
    {
        assert(keys@.skip(i as int).drop_first() =~= keys@.skip(i + 1));
        if same_text(keys[i].0.as_str(), name) {
            return Some(keys[i].1.clone());
        }
        i += 1;
    }
    None
}

/// The provider, model and key that a request uses: the named provider (with its
/// model, or its default model) when a key is available for it; otherwise the first of
/// openai, gemini, glm, deepseek and anthropic that has a key, with its default model
/// (an empty model for anthropic).
pub open spec fn resolved(provider: Option<Seq<char>>, keys: Seq<(String, String)>) -> Option<(Seq<char>, Seq<char>, Seq<char>)> {
    let named = match provider {
        Some(p) => {
            let colon = first_index_of(p, ':');
            let name = match colon {
                Some(i) => p.take(i),
                None => p,
            };
            let model = match colon {
                Some(i) => p.skip(i + 1),
                None => Seq::<char>::empty(),
            };
            let dflt = match default_model_of(name) {
                Some(m) => m,
                None => model,
            };
            match key_of(keys, name) {
                Some(k) => Some((name, if trim(model).len() == 0 { dflt } else { model }, k)),
                None => None,
            }
        },
        None => None,
    };
    if named is Some {
        named
    } else if key_of(keys, "openai"@) is Some {
        Some(("openai"@, "gpt-5.2"@, key_of(keys, "openai"@)->0))
    } else if key_of(keys, "gemini"@) is Some {
        Some(("gemini"@, "gemini-3-pro-preview"@, key_of(keys, "gemini"@)->0))
    } else if key_of(keys, "glm"@) is Some {
        Some(("glm"@, "glm-4-flash"@, key_of(keys, "glm"@)->0))
    } else if key_of(keys, "deepseek"@) is Some {
        Some(("deepseek"@, "deepseek-chat"@, key_of(keys, "deepseek"@)->0))
    } else if key_of(keys, "anthropic"@) is Some {
        Some(("anthropic"@, Seq::<char>::empty(), key_of(keys, "anthropic"@)->0))
    } else {
        None
    }
}

pub open spec fn triple_view(t: Option<(String, String, String)>) -> Option<(Seq<char>, Seq<char>, Seq<char>)> {
    match t {
        Some(x) => Some((x.0@, x.1@, x.2@)),
        None => None,
    }
}

/// Picks the provider, model and key for a request; `keys` lists the `(provider, key)`
/// pairs that are available.
pub fn resolve_provider_spec(provider: Option<&str>, keys: &[(String, String)]) -> (r: Option<(String, String, String)>)
    ensures
        triple_view(r) == resolved(
            match provider {
                Some(p) => Some(p@),
                None => None,
            },
            keys@,
        ),
{
    match provider {
        Some(p) => {
            let spec = parse_provider(p);
            let dflt = match default_model(spec.name.as_str()) {
                Some(m) => m.to_string(),
                None => spec.model.clone(),
            };
            let model = if trimmed(spec.model.as_str()).as_str().is_empty() {
                dflt
            } else {
                spec.model
            };
            match key_for(keys, spec.name.as_str()) {
                Some(k) => {
                    return Some((spec.name, model, k));
                },
                None => {},
            }
        },
        None => {},
    }
    if let Some(k) = key_for(keys, "openai") {
        Some(("openai".to_string(), "gpt-5.2".to_string(), k))
    } else if let Some(k) = key_for(keys, "gemini") {
        Some(("gemini".to_string(), "gemini-3-pro-preview".to_string(), k))
    } else if let Some(k) = key_for(keys, "glm") {
        Some(("glm".to_string(), "glm-4-flash".to_string(), k))
    } else if let Some(k) = key_for(keys, "deepseek") {
        Some(("deepseek".to_string(), "deepseek-chat".to_string(), k))
    } else if let Some(k) = key_for(keys, "anthropic") {
        Some(("anthropic".to_string(), String::new(), k))
    } else {
        None
    }
}

/// The provider for the content filter and the sentence refiner: as
/// `resolve_provider_spec`, with the requested name trimmed and a blank one ignored.
pub fn select_provider(provider: Option<&str>, keys: &[(String, String)]) -> (r: Option<(String, String, String)>)
    ensures
        triple_view(r) == resolved(
            match provider {
                Some(p) => if trim(p@).len() == 0 { None } else { Some(trim(p@)) },
                None => None,
            },
            keys@,
        ),
{
    match provider {
        Some(p) => {
            let t = trimmed(p);
            if t.as_str().is_empty() {
                resolve_provider_spec(None, keys)
            } else {
                resolve_provider_spec(Some(t.as_str()), keys)
            }
        },
        None => resolve_provider_spec(None, keys),
    }
}

} // verus!
