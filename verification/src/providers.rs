//! Lyrics providers as the rest of the library sees them: their names, the
//! lyrics they hand back, the ways they fail, and the rules by which each
//! provider's reply becomes a result.
use vstd::prelude::*;
use crate::lrc::{plain_text, strip_timestamps};
use crate::text::{chars_of, is_blank, slice_of, string_of, trim};

verus! {

/// The lyrics services, in the order they are asked.
#[derive(Debug, Clone, Copy, PartialEq, Eq, Structural)]
pub enum ProviderName {
    Lrclib,
    Musixmatch,
    Netease,
    Megalobiz,
    Genius,
}

pub open spec fn provider_label(name: ProviderName) -> Seq<char> {
    match name {
        ProviderName::Lrclib => seq!['L', 'R', 'C', 'L', 'i', 'b'],
        ProviderName::Musixmatch => seq!['M', 'u', 's', 'i', 'x', 'm', 'a', 't', 'c', 'h'],
        ProviderName::Netease => seq!['N', 'e', 't', 'E', 'a', 's', 'e'],
        ProviderName::Megalobiz => seq!['M', 'e', 'g', 'a', 'l', 'o', 'b', 'i', 'z'],
        ProviderName::Genius => seq!['G', 'e', 'n', 'i', 'u', 's'],
    }
}

impl ProviderName {
    /// Every provider, in priority order.
    pub fn all() -> (r: Vec<ProviderName>)
        ensures
            r@ == seq![
                ProviderName::Lrclib,
                ProviderName::Musixmatch,
                ProviderName::Netease,
                ProviderName::Megalobiz,
                ProviderName::Genius,
            ],
    {
        vec![
            ProviderName::Lrclib,
            ProviderName::Musixmatch,
            ProviderName::Netease,
            ProviderName::Megalobiz,
            ProviderName::Genius,
        ]
    }

    /// The name shown for the provider.
    pub fn label(self) -> (r: String)
        ensures
            r@ == provider_label(self),
    {
        let chars = match self {
            ProviderName::Lrclib => vec!['L', 'R', 'C', 'L', 'i', 'b'],
            ProviderName::Musixmatch => vec!['M', 'u', 's', 'i', 'x', 'm', 'a', 't', 'c', 'h'],
            ProviderName::Netease => vec!['N', 'e', 't', 'E', 'a', 's', 'e'],
            ProviderName::Megalobiz => vec!['M', 'e', 'g', 'a', 'l', 'o', 'b', 'i', 'z'],
            ProviderName::Genius => vec!['G', 'e', 'n', 'i', 'u', 's'],
        };
        let r = string_of(&chars);
        assert(r@ =~= provider_label(self));
        r
    }
}

/// Lyrics one provider found. `confidence` is in thousandths.
#[derive(Debug, Clone)]
pub struct ProviderLyrics {
    pub provider: ProviderName,
    pub synced: Option<String>,
    pub plain: Option<String>,
    pub confidence: u32,
}

pub open spec fn opt_view(s: Option<String>) -> Option<Seq<char>> {
    match s {
        Some(t) => Some(t@),
        None => None,
    }
}

/// What the lyrics of a result are: the synchronized text if there is one,
/// the plain text otherwise.
pub open spec fn best_of(r: ProviderLyrics) -> Option<Seq<char>> {
    match r.synced {
        Some(t) => Some(t@),
        None => opt_view(r.plain),
    }
}

impl ProviderLyrics {
    /// The synchronized text if there is one, the plain text otherwise.
    pub fn best_text(&self) -> (r: Option<&str>)
        ensures
            match r {
                Some(t) => best_of(*self) == Some(t@),
                None => best_of(*self) is None,
            },
    {
        match &self.synced {
            Some(t) => Some(t.as_str()),
            None => match &self.plain {
                Some(t) => Some(t.as_str()),
                None => None,
            },
        }
    }

    /// Whether the result carries synchronized lyrics.
    pub fn is_synced(&self) -> (r: bool)
        ensures
            r == self.synced is Some,
    {
        self.synced.is_some()
    }
}

/// Why a provider gave no lyrics.
#[derive(Debug, Clone)]
pub enum ProviderError {
    Request(String),
    Parse(String),
    RateLimited { retry_after_seconds: Option<u64> },
    NotFound,
}

// ---------------------------------------------------------------------------
// Messages
// ---------------------------------------------------------------------------

/// The decimal digits of `n`.
pub open spec fn decimal(n: nat) -> Seq<char>
    decreases n,
{
    if n < 10 {
        seq![((n + 0x30) as u32) as char]
    } else {
        decimal(n / 10) + seq![(((n % 10) + 0x30) as u32) as char]
    }
}

/// `Debug` text of an optional number: `Some(n)` or `None`.
pub open spec fn debug_option(n: Option<u64>) -> Seq<char> {
    match n {
        Some(v) => seq!['S', 'o', 'm', 'e', '('] + decimal(v as nat) + seq![')'],
        None => seq!['N', 'o', 'n', 'e'],
    }
}

pub open spec fn error_message(e: ProviderError) -> Seq<char> {
    match e {
        ProviderError::Request(m) => "provider request failed: "@ + m@,
        ProviderError::Parse(m) => "provider response could not be parsed: "@ + m@,
        ProviderError::RateLimited { retry_after_seconds } =>
            "provider rate limit reached; retry after "@ + debug_option(retry_after_seconds)
                + " seconds"@,
        ProviderError::NotFound => "provider has no matching lyrics"@,
    }
}

/// The decimal digits of `n`.
pub fn decimal_of(n: u128) -> (r: Vec<char>)
    ensures
        r@ == decimal(n as nat),
    decreases n,
{
    if n < 10 {
        let c = ((n as u8) + 0x30) as char;
        let r = vec![c];
        assert(r@ =~= decimal(n as nat));
        r
    } else {
        let mut r = decimal_of(n / 10);
        let c = (((n % 10) as u8) + 0x30) as char;
        r.push(c);
        assert(r@ =~= decimal(n as nat));
        r
    }
}

pub fn push_all(out: &mut Vec<char>, s: &[char])
    ensures
        final(out)@ == old(out)@ + s@,
{
    let mut i: usize = 0;
    while i < s.len()
        invariant
            i <= s.len(),
            out@ == old(out)@ + s@.take(i as int),
        decreases s.len() - i,
    {
        out.push(s[i]);
        i += 1;
        assert(out@ =~= old(out)@ + s@.take(i as int));
    }
    assert(s@.take(i as int) =~= s@);
}

impl ProviderError {
    /// The message shown for the error.
    pub fn message(&self) -> (r: String)
        ensures
            r@ == error_message(*self),
    {
        let mut out: Vec<char> = Vec::new();
        match self {
            ProviderError::Request(m) => {
                push_all(&mut out, &chars_of("provider request failed: "));
                push_all(&mut out, &chars_of(m.as_str()));
            },
            ProviderError::Parse(m) => {
                push_all(&mut out, &chars_of("provider response could not be parsed: "));
                push_all(&mut out, &chars_of(m.as_str()));
            },
            ProviderError::RateLimited { retry_after_seconds } => {
                push_all(&mut out, &chars_of("provider rate limit reached; retry after "));
                match retry_after_seconds {
                    Some(v) => {
                        push_all(&mut out, &vec!['S', 'o', 'm', 'e', '(']);
                        push_all(&mut out, &decimal_of(*v as u128));
                        push_all(&mut out, &vec![')']);
                    },
                    None => {
                        push_all(&mut out, &vec!['N', 'o', 'n', 'e']);
                    },
                }
                push_all(&mut out, &chars_of(" seconds"));
            },
            ProviderError::NotFound => {
                push_all(&mut out, &chars_of("provider has no matching lyrics"));
            },
        }
        assert(out@ =~= error_message(*self));
        string_of(&out)
    }
}

// ---------------------------------------------------------------------------
// Replies
// ---------------------------------------------------------------------------

/// `value` unless it is missing or blank.
pub open spec fn non_blank(value: Option<String>) -> Option<String> {
    match value {
        Some(v) => if trim(v@).len() > 0 {
            Some(v)
        } else {
            None
        },
        None => None,
    }
}

/// `value`, unless it is missing or holds only white space.
pub fn non_empty(value: Option<String>) -> (r: Option<String>)
    ensures
        r == non_blank(value),
{
    match value {
        Some(v) => {
            let blank = is_blank(&chars_of(v.as_str()));
            if blank {
                None
            } else {
                Some(v)
            }
        },
        None => None,
    }
}

/// What an LRCLib reply means: its non-blank synchronized and plain lyrics;
/// no lyrics at all is "not found" unless the track is instrumental.
/// Confidence: 100 for an instrumental, 950 with synchronized lyrics, 700
/// with plain lyrics only.
pub open spec fn lrclib_reply(
    synced: Option<String>,
    plain: Option<String>,
    instrumental: Option<bool>,
) -> Result<ProviderLyrics, ProviderError> {
    let s = non_blank(synced);
    let p = non_blank(plain);
    let inst = instrumental == Some(true);
    if s is None && p is None && !inst {
        Err(ProviderError::NotFound)
    } else {
        Ok(
            ProviderLyrics {
                provider: ProviderName::Lrclib,
                synced: s,
                plain: p,
                confidence: if inst {
                    100
                } else if s is Some {
                    950
                } else {
                    700
                },
            },
        )
    }
}

/// The lyrics an LRCLib reply holds.
pub fn lrclib_lyrics(
    synced: Option<String>,
    plain: Option<String>,
    instrumental: Option<bool>,
) -> (r: Result<ProviderLyrics, ProviderError>)
    ensures
        r == lrclib_reply(synced, plain, instrumental),
{
    let inst = match instrumental {
        Some(b) => b,
        None => false,
    };
    let s = non_empty(synced);
    let p = non_empty(plain);
    if s.is_none() && p.is_none() && !inst {
        return Err(ProviderError::NotFound);
    }
    let confidence = if inst {
        100
    } else if s.is_some() {
        950
    } else {
        700
    };
    Ok(ProviderLyrics { provider: ProviderName::Lrclib, synced: s, plain: p, confidence })
}

/// The address of LRCLib's lookup endpoint under `base_url`: the base
/// without its trailing slashes, then `/api/get`.
pub open spec fn lrclib_endpoint(base: Seq<char>) -> Seq<char> {
    strip_trailing_slashes(base) + "/api/get"@
}

pub open spec fn strip_trailing_slashes(s: Seq<char>) -> Seq<char>
    decreases s.len(),
{
    if s.len() > 0 && s.last() == '/' {
        strip_trailing_slashes(s.drop_last())
    } else {
        s
    }
}

proof fn lemma_strip_slashes_is(s: Seq<char>, k: int)
    requires
        0 <= k <= s.len(),
        forall|j: int| k <= j < s.len() ==> s[j] == '/',
        k == 0 || s[k - 1] != '/',
    ensures
        strip_trailing_slashes(s) =~= s.subrange(0, k),
    decreases s.len() - k,
{
    if k < s.len() {
        lemma_strip_slashes_is(s.drop_last(), k);
        assert(s.drop_last().subrange(0, k) =~= s.subrange(0, k));
    } else {
        assert(s.subrange(0, k) =~= s);
    }
}

/// LRCLib's lookup endpoint under `base_url`.
pub fn lrclib_api_url(base_url: &str) -> (r: String)
    ensures
        r@ == lrclib_endpoint(base_url@),
{
    let chars = chars_of(base_url);
    let mut k = chars.len();
    while k > 0 && chars[k - 1] == '/'
        invariant
            k <= chars.len(),
            forall|j: int| k <= j < chars.len() ==> chars@[j] == '/',
        decreases k,
    {
        k -= 1;
    }
    proof {
        lemma_strip_slashes_is(chars@, k as int);
    }
    let mut out = slice_of(&chars, 0, k);
    push_all(&mut out, &chars_of("/api/get"));
    string_of(&out)
}

/// A search query of two words: `first second`.
pub fn search_query(first: &str, second: &str) -> (r: String)
    ensures
        r@ == first@ + seq![' '] + second@,
{
    let mut out = chars_of(first);
    out.push(' ');
    push_all(&mut out, &chars_of(second));
    string_of(&out)
}

/// Synchronized lyrics from a service that returns LRC text: none when the
/// text is blank, otherwise the text with its plain form beside it.
pub open spec fn synced_reply(provider: ProviderName, text: Seq<char>, confidence: u32) -> Option<
    (ProviderName, Seq<char>, Seq<char>, u32),
> {
    if trim(text).len() == 0 {
        None
    } else {
        Some((provider, text, plain_text(text), confidence))
    }
}

pub open spec fn result_view(r: ProviderLyrics) -> (ProviderName, Option<Seq<char>>, Option<
    Seq<char>,
>, u32) {
    (r.provider, opt_view(r.synced), opt_view(r.plain), r.confidence)
}

/// The result for LRC `text` from `provider`: synchronized text and its plain
/// form, or nothing when the text is blank.
pub fn synced_lyrics(provider: ProviderName, text: String, confidence: u32) -> (r: Option<
    ProviderLyrics,
>)
    ensures
        match synced_reply(provider, text@, confidence) {
            Some((p, s, pl, c)) => r is Some && result_view(r->0) == (p, Some(s), Some(pl), c),
            None => r is None,
        },
{
    if is_blank(&chars_of(text.as_str())) {
        return None;
    }
    let plain = strip_timestamps(text.as_str());
    Some(ProviderLyrics { provider, synced: Some(text), plain: Some(plain), confidence })
}

/// The result for plain `text` from `provider`, or nothing when it is blank.
pub fn plain_lyrics(provider: ProviderName, text: String, confidence: u32) -> (r: Option<
    ProviderLyrics,
>)
    ensures
        trim(text@).len() == 0 ==> r is None,
        trim(text@).len() > 0 ==> r is Some && result_view(r->0) == (
            provider,
            None::<Seq<char>>,
            Some(text@),
            confidence,
        ),
{
    if is_blank(&chars_of(text.as_str())) {
        return None;
    }
    Some(ProviderLyrics { provider, synced: None, plain: Some(text), confidence })
}

} // verus!
