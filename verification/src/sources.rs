//! What the lyrics services' replies mean: HTTP statuses, Musixmatch's user
//! tokens, the song a Genius search points to, and the lyrics read out of
//! Genius and Megalobiz pages.
use vstd::prelude::*;
use crate::providers::{ProviderError, ProviderLyrics, ProviderName, non_blank, non_empty, push_all, result_view};
use crate::text::{chars_of, is_blank, replace_all, replace_all_of, string_of, trim, trim_of};
use crate::lrc::join_lines;
use crate::text::same_chars;
use crate::lrc::{parse_u64, parse_u64_of};

verus! {

// ---------------------------------------------------------------------------
// HTTP statuses
// ---------------------------------------------------------------------------

/// What a service's HTTP status means for a search: 429 is a rate limit
/// (retry after a minute), any other status outside 200..=299 a failed
/// request, described as `<context> returned HTTP <status_text>`.
pub fn check_status(status: u16, status_text: &str, context: &str) -> (r: Result<(), ProviderError>)
    ensures
        status == 429 ==> r == Err::<(), ProviderError>(
            ProviderError::RateLimited { retry_after_seconds: Some(60) },
        ),
        status != 429 && !(200 <= status <= 299) ==> (r matches Err(ProviderError::Request(m))
            && m@ == context@ + " returned HTTP "@ + status_text@),
        status != 429 && 200 <= status <= 299 ==> r is Ok,
{
    if status == 429 {
        return Err(ProviderError::RateLimited { retry_after_seconds: Some(60) });
    }
    if status < 200 || status > 299 {
        let mut m = chars_of(context);
        push_all(&mut m, &chars_of(" returned HTTP "));
        push_all(&mut m, &chars_of(status_text));
        return Err(ProviderError::Request(string_of(&m)));
    }
    Ok(())
}

/// Megalobiz answers 429 when it is rate limiting, without saying for how
/// long; every other status goes on to the page.
pub fn megalobiz_status(status: u16) -> (r: Result<(), ProviderError>)
    ensures
        status == 429 ==> r == Err::<(), ProviderError>(
            ProviderError::RateLimited { retry_after_seconds: None },
        ),
        status != 429 ==> r is Ok,
{
    if status == 429 {
        Err(ProviderError::RateLimited { retry_after_seconds: None })
    } else {
        Ok(())
    }
}

/// What an LRCLib status means: 404 is "no lyrics for this track"
/// (`Ok(false)`), 429 a rate limit for as long as the `Retry-After` header
/// says in whole seconds (when it reads as a number), any other status
/// outside 200..=299 a failed request; otherwise the reply is read
/// (`Ok(true)`).
pub fn lrclib_status(status: u16, status_text: &str, retry_after: Option<&str>) -> (r: Result<bool, ProviderError>)
    ensures
        status == 404 ==> r == Ok::<bool, ProviderError>(false),
        status == 429 ==> r == Err::<bool, ProviderError>(
            ProviderError::RateLimited {
                retry_after_seconds: match retry_after {
                    Some(v) => parse_u64(v@),
                    None => None,
                },
            },
        ),
        status != 404 && status != 429 && !(200 <= status <= 299) ==> (r matches Err(
            ProviderError::Request(m),
        ) && m@ == "LRCLib returned HTTP "@ + status_text@),
        status != 404 && status != 429 && 200 <= status <= 299 ==> r == Ok::<bool, ProviderError>(true),
{
    if status == 404 {
        return Ok(false);
    }
    if status == 429 {
        let seconds = match retry_after {
            Some(v) => parse_u64_of(&chars_of(v)),
            None => None,
        };
        return Err(ProviderError::RateLimited { retry_after_seconds: seconds });
    }
    proof {
        reveal_strlit("LRCLib");
        reveal_strlit(" returned HTTP ");
        reveal_strlit("LRCLib returned HTTP ");
        assert("LRCLib"@ + " returned HTTP "@ =~= "LRCLib returned HTTP "@);
    }
    match check_status(status, status_text, "LRCLib") {
        Ok(()) => Ok(true),
        Err(e) => Err(e),
    }
}

// ---------------------------------------------------------------------------
// Musixmatch
// ---------------------------------------------------------------------------

/// How long a Musixmatch user token is used: nine minutes of its ten.
pub const TOKEN_LIFETIME_MS: u64 = 540_000;

/// Whether searches go through the official API (a key is configured) rather
/// than the desktop client's endpoints.
pub fn musixmatch_uses_api_key(api_key: &str) -> (r: bool)
    ensures
        r == (trim(api_key@).len() > 0),
{
    !is_blank(&chars_of(api_key))
}

/// The user token a `token.get` reply carries; a missing or blank one is a
/// parse failure.
pub fn user_token(token: Option<String>) -> (r: Result<String, ProviderError>)
    ensures
        match non_blank(token) {
            Some(t) => r == Ok::<String, ProviderError>(t),
            None => r matches Err(ProviderError::Parse(m)) && m@ == "Missing user_token in response"@,
        },
{
    match non_empty(token) {
        Some(t) => Ok(t),
        None => Err(ProviderError::Parse(string_of(&chars_of("Missing user_token in response")))),
    }
}

/// Whether a token that expires at `expires_at_ms` may still be used at
/// `now_ms`.
pub fn token_is_fresh(now_ms: u64, expires_at_ms: u64) -> (r: bool)
    ensures
        r == (now_ms < expires_at_ms),
{
    now_ms < expires_at_ms
}

/// When a token fetched at `now_ms` stops being used.
pub fn token_expiry(now_ms: u64) -> (r: u64)
    requires
        now_ms <= u64::MAX - TOKEN_LIFETIME_MS,
    ensures
        r == now_ms + TOKEN_LIFETIME_MS,
{
    now_ms + TOKEN_LIFETIME_MS
}

/// The user token in use and when it stops being used.
pub struct TokenCache {
    token: Option<(String, u64)>,
}

impl TokenCache {
    pub closed spec fn held(&self) -> Option<(Seq<char>, u64)> {
        match self.token {
            Some((t, e)) => Some((t@, e)),
            None => None,
        }
    }

    pub fn new() -> (r: Self)
        ensures
            r.held() is None,
    {
        TokenCache { token: None }
    }

    /// The token to use at `now_ms`, when one is held that has not expired.
    pub fn cached(&self, now_ms: u64) -> (r: Option<String>)
        ensures
            match self.held() {
                Some((t, expires)) => if now_ms < expires {
                    r is Some && r->0@ == t
                } else {
                    r is None
                },
                None => r is None,
            },
    {
        match &self.token {
            Some((t, expires)) => if token_is_fresh(now_ms, *expires) {
                Some(t.clone())
            } else {
                None
            },
            None => None,
        }
    }

    /// Holds `token`, fetched at `now_ms`, for `TOKEN_LIFETIME_MS`.
    pub fn remember(&mut self, token: String, now_ms: u64)
        requires
            now_ms <= u64::MAX - TOKEN_LIFETIME_MS,
        ensures
            final(self).held() == Some((token@, (now_ms + TOKEN_LIFETIME_MS) as u64)),
    {
        let expires = token_expiry(now_ms);
        self.token = Some((token, expires));
    }
}

/// A token remembered at `fetched` is served until nine minutes later, and
/// not from then on.
pub proof fn tokens_are_served_for_their_lifetime(token: Seq<char>, fetched: u64, now: u64)
    requires
        fetched <= u64::MAX - TOKEN_LIFETIME_MS,
    ensures
        ({
            let expires = (fetched + TOKEN_LIFETIME_MS) as u64;
            &&& (fetched <= now < fetched + TOKEN_LIFETIME_MS ==> now < expires)
            &&& (now >= fetched + TOKEN_LIFETIME_MS ==> !(now < expires))
        }),
{
}

/// A Musixmatch reply whose header carries status 429 is a rate limit even
/// when the HTTP status is 200.
pub fn header_rate_limited(status_code: Option<u16>) -> (r: bool)
    ensures
        r == (status_code == Some(429u16)),
{
    match status_code {
        Some(c) => c == 429,
        None => false,
    }
}

// ---------------------------------------------------------------------------
// Genius
// ---------------------------------------------------------------------------

/// One section of a Genius multi-search reply: its type and the page
/// addresses of its hits.
pub struct SearchSection {
    pub section_type: Option<String>,
    pub hit_urls: Option<Vec<String>>,
}

/// The first section at or after `i` whose type is `song`.
pub open spec fn first_song_section(sections: Seq<SearchSection>, i: int) -> Option<int>
    decreases sections.len() - i,
{
    if i < 0 || i >= sections.len() {
        None
    } else if sections[i].section_type matches Some(t) && t@ == "song"@ {
        Some(i)
    } else {
        first_song_section(sections, i + 1)
    }
}

/// The page a multi-search points to: the first hit of the first `song`
/// section, when that section has one.
pub open spec fn song_url(sections: Seq<SearchSection>) -> Option<Seq<char>> {
    match first_song_section(sections, 0) {
        Some(i) => match sections[i].hit_urls {
            Some(h) => if h.len() > 0 {
                Some(h[0]@)
            } else {
                None
            },
            None => None,
        },
        None => None,
    }
}

proof fn lemma_first_song_from(sections: Seq<SearchSection>, i: int)
    requires
        0 <= i <= sections.len(),
        forall|j: int|
            0 <= j < i ==> !(#[trigger] sections[j].section_type matches Some(t) && t@ == "song"@),
    ensures
        first_song_section(sections, 0) == first_song_section(sections, i),
    decreases i,
{
    if i > 0 {
        lemma_first_song_from(sections, i - 1);
    }
}

/// The page of the song a Genius multi-search found.
pub fn genius_song_url(sections: &[SearchSection]) -> (r: Option<String>)
    ensures
        match song_url(sections@) {
            Some(u) => r is Some && r->0@ == u,
            None => r is None,
        },
{
    let song = chars_of("song");
    let mut i: usize = 0;
    while i < sections.len()
        invariant
            i <= sections.len(),
            song@ == "song"@,
            forall|j: int|
                0 <= j < i ==> !(#[trigger] sections@[j].section_type matches Some(t) && t@ == "song"@),
        decreases sections.len() - i,
    {
        let is_song = match &sections[i].section_type {
            Some(t) => same_chars(&chars_of(t.as_str()), &song),
            None => false,
        };
        if is_song {
            proof {
                lemma_first_song_from(sections@, i as int);
            }
            return match &sections[i].hit_urls {
                Some(h) => if h.len() > 0 {
                    Some(h[0].clone())
                } else {
                    None
                },
                None => None,
            };
        }
        i += 1;
    }
    proof {
        lemma_first_song_from(sections@, i as int);
    }
    None
}

/// The Genius result for lyrics read off a page: plain lyrics, or nothing
/// when the page held none.
pub fn genius_lyrics(text: String) -> (r: Option<ProviderLyrics>)
    ensures
        text@.len() == 0 ==> r is None,
        text@.len() > 0 ==> r is Some && result_view(r->0) == (
            ProviderName::Genius,
            None::<Seq<char>>,
            Some(text@),
            700u32,
        ),
{
    if text.as_str().is_empty() {
        None
    } else {
        Some(ProviderLyrics { provider: ProviderName::Genius, synced: None, plain: Some(text), confidence: 700 })
    }
}

/// The text of an HTML fragment, its text nodes joined; a function of the
/// fragment alone.
pub uninterp spec fn fragment_text_of(html: Seq<char>) -> Seq<char>;

pub open spec fn part_view(p: (String, Vec<String>)) -> (Seq<char>, Seq<Seq<char>>) {
    (p.0@, crate::art::texts_view(p.1@))
}

/// How many elements of the HTML document `page` the selector `container`
/// matches, when both it and `exclude` parse as selectors; 0 otherwise. A
/// function of its arguments alone: parsing and matching do not depend on
/// the order in which scraper keeps an element's attributes.
pub uninterp spec fn container_count_of(page: Seq<char>, container: Seq<char>, exclude: Seq<char>) -> nat;

/// `Html::parse_document`, `Selector::parse`, `select`, `inner_html` and
/// `html` of scraper: for each element of the page that `container`
/// matches, its inner HTML and the HTML of each element inside it that
/// `exclude` matches; nothing when a selector does not parse. Claimed: one
/// entry per matching element, `container_count_of` the arguments. Nothing
/// is claimed of the HTML: scraper keeps an element's attributes in a map
/// seeded afresh in each process, so the HTML it writes back may list them
/// in another order from one run to the next.
#[verifier::external_body]
fn lyrics_container_parts(page: &str, container: &str, exclude: &str) -> (r: Vec<(String, Vec<String>)>)
    ensures
        r@.len() == container_count_of(page@, container@, exclude@),
{
    let document = scraper::Html::parse_document(page);
    let (Ok(container), Ok(exclude)) = (scraper::Selector::parse(container), scraper::Selector::parse(exclude)) else {
        return Vec::new()
    };
    let mut parts = Vec::new();
    for c in document.select(&container) {
        let mut excluded = Vec::new();
        for e in c.select(&exclude) {
            excluded.push(e.html());
        }
        parts.push((c.inner_html(), excluded));
    }
    parts
}

/// `Html::parse_fragment`, `root_element` and `text` of scraper: the text of
/// an HTML fragment. Claimed: it is `fragment_text_of` the fragment.
#[verifier::external_body]
fn fragment_text(html: &str) -> (r: String)
    ensures
        r@ == fragment_text_of(html@),
{
    scraper::Html::parse_fragment(html).root_element().text().collect::<Vec<_>>().join("")
}

/// `html` with every excluded element's HTML taken out, in order.
pub open spec fn without_all(html: Seq<char>, excluded: Seq<Seq<char>>) -> Seq<char>
    decreases excluded.len(),
{
    if excluded.len() == 0 {
        html
    } else {
        replace_all(without_all(html, excluded.drop_last()), excluded.last(), Seq::empty())
    }
}

/// A container's HTML once its excluded elements are gone and its line
/// breaks (`<br>`, `<br/>`, `<br />`) are newlines.
pub open spec fn cleaned_html(inner: Seq<char>, excluded: Seq<Seq<char>>) -> Seq<char> {
    replace_all(
        replace_all(replace_all(without_all(inner, excluded), "<br>"@, seq!['\n']), "<br/>"@, seq!['\n']),
        "<br />"@,
        seq!['\n'],
    )
}

/// The container texts worth keeping: each trimmed, empty ones and the
/// `[Music Video]` marker dropped.
pub open spec fn kept_texts(texts: Seq<Seq<char>>) -> Seq<Seq<char>>
    decreases texts.len(),
{
    if texts.len() == 0 {
        Seq::empty()
    } else {
        let rest = kept_texts(texts.drop_last());
        let t = trim(texts.last());
        if t.len() == 0 || t == "[Music Video]"@ {
            rest
        } else {
            rest.push(t)
        }
    }
}

/// The lyrics of a page whose containers hold `texts`.
pub open spec fn lyrics_of_texts(texts: Seq<Seq<char>>) -> Seq<char> {
    trim(join_lines(kept_texts(texts)))
}

/// The lyrics of a page whose lyrics containers are `parts`: each
/// container's inner HTML with the HTML of the elements to leave out.
pub open spec fn parts_lyrics(parts: Seq<(Seq<char>, Seq<Seq<char>>)>) -> Seq<char> {
    lyrics_of_texts(Seq::new(parts.len(), |i: int| fragment_text_of(cleaned_html(parts[i].0, parts[i].1))))
}

/// A container's HTML with its excluded elements taken out and its line
/// breaks made newlines.
pub fn clean_container_html(inner: &str, excluded: &[String]) -> (r: String)
    ensures
        r@ == cleaned_html(inner@, crate::art::texts_view(excluded@)),
{
    let ghost ex = crate::art::texts_view(excluded@);
    let mut html = chars_of(inner);
    let empty: Vec<char> = Vec::new();
    let mut k: usize = 0;
    while k < excluded.len()
        invariant
            k <= excluded@.len(),
            ex == crate::art::texts_view(excluded@),
            empty@ == Seq::<char>::empty(),
            html@ == without_all(inner@, ex.take(k as int)),
        decreases excluded.len() - k,
    {
        proof {
            assert(ex.take(k + 1).drop_last() =~= ex.take(k as int));
            assert(ex.take(k + 1).last() == excluded@[k as int]@);
        }
        html = replace_all_of(&html, &chars_of(excluded[k].as_str()), &empty);
        k += 1;
    }
    assert(ex.take(k as int) =~= ex);
    let newline = vec!['\n'];
    assert(newline@ =~= seq!['\n']);
    let a = replace_all_of(&html, &chars_of("<br>"), &newline);
    let b = replace_all_of(&a, &chars_of("<br/>"), &newline);
    let c = replace_all_of(&b, &chars_of("<br />"), &newline);
    string_of(&c)
}

/// The lyrics of a page whose containers hold `texts`: each trimmed, empty
/// ones and `[Music Video]` dropped, joined with newlines, trimmed.
pub fn lyrics_from_texts(texts: &[String]) -> (r: String)
    ensures
        r@ == lyrics_of_texts(crate::art::texts_view(texts@)),
{
    let ghost ts = crate::art::texts_view(texts@);
    let marker = chars_of("[Music Video]");
    let mut out: Vec<char> = Vec::new();
    let ghost mut kept: Seq<Seq<char>> = Seq::empty();
    let mut any = false;
    let mut k: usize = 0;
    while k < texts.len()
        invariant
            k <= texts@.len(),
            ts == crate::art::texts_view(texts@),
            marker@ == "[Music Video]"@,
            kept == kept_texts(ts.take(k as int)),
            out@ == join_lines(kept),
            any == (kept.len() > 0),
        decreases texts.len() - k,
    {
        let t = trim_of(&chars_of(texts[k].as_str()));
        proof {
            assert(ts.take(k + 1).drop_last() =~= ts.take(k as int));
            assert(ts.take(k + 1).last() == texts@[k as int]@);
        }
        if t.len() > 0 && !same_chars(&t, &marker) {
            if any {
                out.push('\n');
            }
            let ghost base = out@;
            push_all(&mut out, &t);
            proof {
                let nk = kept.push(t@);
                assert(nk.drop_last() =~= kept);
                if kept.len() == 0 {
                    assert(out@ =~= join_lines(nk));
                } else {
                    assert(out@ =~= join_lines(kept) + seq!['\n'] + t@);
                }
                kept = nk;
            }
            any = true;
        }
        k += 1;
    }
    assert(ts.take(k as int) =~= ts);
    string_of(&trim_of(&out))
}

/// The lyrics held by the lyrics containers `parts` of a Genius page (each
/// container's inner HTML, with the HTML of the elements inside it marked
/// as excluded): the text of each container once those elements are gone
/// and its line breaks are newlines, empty containers and the
/// `[Music Video]` marker dropped, joined by newlines and trimmed.
pub fn lyrics_from_parts(parts: &[(String, Vec<String>)]) -> (r: String)
    ensures
        r@ == parts_lyrics(parts@.map_values(|p: (String, Vec<String>)| part_view(p))),
{
    let ghost pv = parts@.map_values(|p: (String, Vec<String>)| part_view(p));
    let mut texts: Vec<String> = Vec::new();
    let mut i: usize = 0;
    while i < parts.len()
        invariant
            i <= parts@.len(),
            pv == parts@.map_values(|p: (String, Vec<String>)| part_view(p)),
            crate::art::texts_view(texts@) == Seq::new(
                i as nat,
                |j: int| fragment_text_of(cleaned_html(pv[j].0, pv[j].1)),
            ),
        decreases parts.len() - i,
    {
        assert(pv[i as int] == part_view(parts@[i as int]));
        let cleaned = clean_container_html(parts[i].0.as_str(), &parts[i].1);
        let text = fragment_text(cleaned.as_str());
        let ghost before = texts@;
        texts.push(text);
        assert(crate::art::texts_view(texts@) =~= crate::art::texts_view(before).push(text@));
        assert(text@ == fragment_text_of(cleaned_html(pv[i as int].0, pv[i as int].1)));
        assert(crate::art::texts_view(texts@) =~= Seq::new(
            (i + 1) as nat,
            |j: int| fragment_text_of(cleaned_html(pv[j].0, pv[j].1)),
        ));
        i += 1;
    }
    lyrics_from_texts(&texts)
}

/// The lyrics of a Genius page: the lyrics of the containers
/// (`[data-lyrics-container='true']`) that scraper finds in it, leaving out
/// the elements marked `[data-exclude-from-selection='true']`. Whatever
/// scraper hands back, the result is the lyrics of as many containers as
/// the page holds.
pub fn extract_lyrics(page: &str) -> (r: String)
    ensures
        exists|parts: Seq<(Seq<char>, Seq<Seq<char>>)>|
            parts.len() == container_count_of(
                page@,
                "[data-lyrics-container='true']"@,
                "[data-exclude-from-selection='true']"@,
            ) && r@ == parts_lyrics(parts),
{
    let parts = lyrics_container_parts(
        page,
        "[data-lyrics-container='true']",
        "[data-exclude-from-selection='true']",
    );
    let r = lyrics_from_parts(&parts);
    let ghost pv = parts@.map_values(|p: (String, Vec<String>)| part_view(p));
    assert(r@ == parts_lyrics(pv));
    assert(pv.len() == parts@.len());
    r
}

/// The id of the first entry a search listed (`ids` holds each entry's id,
/// when it has one): `None` when the list is empty or its first entry has
/// no id. Later entries are not looked at: the first is the best match.
pub fn first_result_id(ids: &[Option<u64>]) -> (r: Option<u64>)
    ensures
        r == if ids@.len() == 0 {
            None
        } else {
            ids@[0]
        },
{
    if ids.len() == 0 {
        None
    } else {
        ids[0]
    }
}

// ---------------------------------------------------------------------------
// Megalobiz
// ---------------------------------------------------------------------------

/// The value of `attribute` on the first element of an HTML document that
/// `selector` matches; a function of its arguments alone.
pub uninterp spec fn first_attribute_of(html: Seq<char>, selector: Seq<char>, attribute: Seq<char>) -> Option<
    Seq<char>,
>;

/// The text of the first element of an HTML document that `selector`
/// matches, its text nodes joined; a function of its arguments alone.
pub uninterp spec fn first_text_of(html: Seq<char>, selector: Seq<char>) -> Option<Seq<char>>;

/// `Html::parse_document`, `Selector::parse`, `select` and `attr` of
/// scraper. Claimed: the result is `first_attribute_of` the arguments.
#[verifier::external_body]
fn first_attribute(html: &str, selector: &str, attribute: &str) -> (r: Option<String>)
    ensures
        match first_attribute_of(html@, selector@, attribute@) {
            Some(v) => r is Some && r->0@ == v,
            None => r is None,
        },
{
    let selector = scraper::Selector::parse(selector).ok()?;
    let document = scraper::Html::parse_document(html);
    let element = document.select(&selector).next()?;
    match element.value().attr(attribute) {
        Some(value) => Some(value.to_string()),
        None => None,
    }
}

/// `Html::parse_document`, `Selector::parse`, `select` and `text` of
/// scraper. Claimed: the result is `first_text_of` the arguments.
#[verifier::external_body]
fn first_text(html: &str, selector: &str) -> (r: Option<String>)
    ensures
        match first_text_of(html@, selector@) {
            Some(v) => r is Some && r->0@ == v,
            None => r is None,
        },
{
    let selector = scraper::Selector::parse(selector).ok()?;
    let document = scraper::Html::parse_document(html);
    let element = document.select(&selector).next()?;
    Some(element.text().collect::<Vec<_>>().join(""))
}

/// The search text for Megalobiz: `<artist> <title>`, trimmed.
pub fn megalobiz_query(artist: &str, title: &str) -> (r: String)
    ensures
        r@ == trim(artist@ + seq![' '] + title@),
{
    let mut q = chars_of(artist);
    q.push(' ');
    push_all(&mut q, &chars_of(title));
    assert(q@ =~= artist@ + seq![' '] + title@);
    string_of(&trim_of(&q))
}

/// The page of the first search result, from the link of the first
/// `.entity_name a` on the search page.
pub fn megalobiz_detail_url(search_page: &str) -> (r: Option<String>)
    ensures
        match first_attribute_of(search_page@, ".entity_name a"@, "href"@) {
            Some(href) => r is Some && r->0@ == "https://www.megalobiz.com"@ + href,
            None => r is None,
        },
{
    match first_attribute(search_page, ".entity_name a", "href") {
        Some(href) => {
            let mut url = chars_of("https://www.megalobiz.com");
            push_all(&mut url, &chars_of(href.as_str()));
            Some(string_of(&url))
        },
        None => None,
    }
}

/// The lyrics on a Megalobiz lyrics page: the text of its first
/// `span.lyrics_details`, as synchronized lyrics with confidence 700.
pub fn megalobiz_lyrics(detail_page: &str) -> (r: Option<ProviderLyrics>)
    ensures
        match first_text_of(detail_page@, "span.lyrics_details"@) {
            Some(t) => r is Some && result_view(r->0) == (
                ProviderName::Megalobiz,
                Some(t),
                None::<Seq<char>>,
                700u32,
            ),
            None => r is None,
        },
{
    match first_text(detail_page, "span.lyrics_details") {
        Some(text) => Some(
            ProviderLyrics { provider: ProviderName::Megalobiz, synced: Some(text), plain: None, confidence: 700 },
        ),
        None => None,
    }
}

} // verus!
