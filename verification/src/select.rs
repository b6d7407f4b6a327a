//! Picking the single URL candidate out of a message.
//!
//! A message carries rich-text annotations over its body, annotations over
//! its caption, and the two free-text fields themselves. Candidates are
//! gathered in a fixed priority order: explicit link annotations of the
//! body, then of the caption, then URL-shaped substrings of the body text,
//! then of the caption text; the first candidate of the concatenation is the
//! result. An explicit link is authoritative and returned as it stands; a
//! text match is re-parsed and may come back as a typed parse failure, which
//! is returned rather than skipped.

use crate::urlfind::{url_matches, views_of};
use vstd::prelude::*;

verus! {

/// `url::Url` values run through the selector as opaque parsed URLs.
#[verifier::external_type_specification]
#[verifier::external_body]
pub struct ExUrl(url::Url);

/// Why a URL candidate was rejected.
#[derive(Clone, Copy, Debug, PartialEq, Eq, Structural)]
pub enum UrlError {
    /// The candidate is not a structurally valid absolute URL.
    UrlParseFailed,
}

/// A rich-text annotation over a stretch of message text. Only the variant
/// carrying an explicit URL matters to the selector.
pub enum EntityKind {
    /// A link annotation whose target URL is given explicitly, apart from
    /// the annotated text itself.
    TextLink { url: url::Url },
    /// An annotation of any other kind.
    Other,
}

/// An annotation together with the byte range it covers. The range plays no
/// part in selection; it is carried as received.
pub struct Entity {
    pub kind: EntityKind,
    pub offset: usize,
    pub length: usize,
}

/// A structured message: annotations over the body, annotations over the
/// caption, and the two optional free-text fields.
pub struct Message {
    pub entities: Vec<Entity>,
    pub caption_entities: Vec<Entity>,
    pub text: Option<String>,
    pub caption: Option<String>,
}

/// The explicit link targets of a run of entities, in order.
pub open spec fn entity_links(es: Seq<Entity>) -> Seq<url::Url>
    decreases es.len(),
{
    if es.len() == 0 {
        Seq::empty()
    } else {
        match es[0].kind {
            EntityKind::TextLink { url } => seq![url] + entity_links(es.drop_first()),
            EntityKind::Other => entity_links(es.drop_first()),
        }
    }
}

/// The view of an optional text field: its characters, or empty when absent.
pub open spec fn opt_text(t: Option<String>) -> Seq<char> {
    match t {
        Some(s) => s@,
        None => Seq::empty(),
    }
}

/// All explicit link candidates of a message: body entities first.
pub open spec fn message_entity_links(m: Message) -> Seq<url::Url> {
    entity_links(m.entities@) + entity_links(m.caption_entities@)
}

/// All text-match candidates of a message: body text matches first.
pub open spec fn message_text_matches(m: Message) -> Seq<Seq<char>> {
    url_matches(opt_text(m.text)) + url_matches(opt_text(m.caption))
}

/// Whether `url::Url::parse` accepts the given characters as a structurally
/// valid absolute URL. The outcome depends on the input alone.
pub uninterp spec fn url_parse_ok(s: Seq<char>) -> bool;

/// The URL that `url::Url::parse` yields on the given characters, when it
/// accepts them. The value depends on the input alone.
pub uninterp spec fn url_of(s: Seq<char>) -> url::Url;

/// Relies on `url::Url::parse`: it validates and parses an absolute URL,
/// and both its success and the parsed value depend on the input string
/// alone.
#[verifier::external_body]
fn parse_absolute_url(s: &str) -> (r: Result<url::Url, UrlError>)
    ensures
        (r is Ok) <==> url_parse_ok(s@),
        (r is Ok) ==> r->Ok_0 == url_of(s@),
        (r is Err) ==> r->Err_0 == UrlError::UrlParseFailed,
{
    url::Url::parse(s).map_err(|_| UrlError::UrlParseFailed)
}

/// Relies on the derived `Clone` impl of `url::Url`: the clone equals the
/// original.
#[verifier::external_body]
fn clone_url(u: &url::Url) -> (r: url::Url)
    ensures
        r == *u,
{
    u.clone()
}

/// Parse every URL-shaped substring of `text` into a validated URL or a
/// typed parse failure, preserving match order.
pub fn parse_url(text: &str) -> (r: Vec<Result<url::Url, UrlError>>)
    ensures
        r@.len() == url_matches(text@).len(),
        forall|i: int|
            0 <= i < r@.len() ==> ((r@[i] is Ok) <==> url_parse_ok(url_matches(text@)[i])),
        forall|i: int|
            0 <= i < r@.len() ==> ((r@[i] is Ok) ==> r@[i]->Ok_0 == url_of(url_matches(text@)[i])),
        forall|i: int|
            0 <= i < r@.len() ==> ((r@[i] is Err) ==> r@[i]->Err_0 == UrlError::UrlParseFailed),
{
    let ms = crate::urlfind::find_urls(text);
    let mut out: Vec<Result<url::Url, UrlError>> = Vec::new();
    let mut i: usize = 0;
    while i < ms.len()
        invariant
            views_of(ms@) == url_matches(text@),
            i <= ms@.len(),
            out@.len() == i,
            forall|q: int|
                0 <= q < i ==> ((out@[q] is Ok) <==> url_parse_ok(url_matches(text@)[q])),
            forall|q: int|
                0 <= q < i ==> ((out@[q] is Ok) ==> out@[q]->Ok_0 == url_of(url_matches(text@)[q])),
            forall|q: int|
                0 <= q < i ==> ((out@[q] is Err) ==> out@[q]->Err_0 == UrlError::UrlParseFailed),
        decreases ms@.len() - i,
    {
        let pr = parse_absolute_url(ms[i].as_str());
        proof {
            assert(views_of(ms@)[i as int] == ms@[i as int]@);
        }
        out.push(pr);
        i = i + 1;
    }
    out
}

proof fn lemma_entity_links_skip(es: Seq<Entity>, i: int)
    requires
        0 <= i <= es.len(),
        forall|q: int| 0 <= q < i ==> !(es[q].kind is TextLink),
    ensures
        entity_links(es) == entity_links(es.skip(i)),
    decreases i,
{
    if i > 0 {
        lemma_entity_links_skip(es, i - 1);
        let tail = es.skip(i - 1);
        assert(tail[0] == es[i - 1]);
        assert(tail.drop_first() =~= es.skip(i));
    } else {
        assert(es.skip(0) =~= es);
    }
}

fn first_entity_link(es: &Vec<Entity>) -> (r: Option<url::Url>)
    ensures
        (r is Some) <==> entity_links(es@).len() > 0,
        (r is Some) ==> r.unwrap() == entity_links(es@)[0],
{
    let mut i: usize = 0;
    while i < es.len()
        invariant
            i <= es@.len(),
            forall|q: int| 0 <= q < i ==> !(es@[q].kind is TextLink),
        decreases es@.len() - i,
    {
        match &es[i].kind {
            EntityKind::TextLink { url } => {
                proof {
                    lemma_entity_links_skip(es@, i as int);
                    assert(es@.skip(i as int)[0] == es@[i as int]);
                }
                return Some(clone_url(url));
            },
            EntityKind::Other => {
            },
        }
        i = i + 1;
    }
    proof {
        lemma_entity_links_skip(es@, es@.len() as int);
        assert(es@.skip(es@.len() as int) =~= Seq::<Entity>::empty());
    }
    None
}

fn text_candidates(t: &Option<String>) -> (r: Vec<Result<url::Url, UrlError>>)
    ensures
        r@.len() == url_matches(opt_text(*t)).len(),
        forall|i: int|
            0 <= i < r@.len() ==> ((r@[i] is Ok) <==> url_parse_ok(url_matches(opt_text(*t))[i])),
        forall|i: int|
            0 <= i < r@.len() ==> ((r@[i] is Ok) ==> r@[i]->Ok_0 == url_of(
                url_matches(opt_text(*t))[i],
            )),
        forall|i: int|
            0 <= i < r@.len() ==> ((r@[i] is Err) ==> r@[i]->Err_0 == UrlError::UrlParseFailed),
{
    match t {
        Some(s) => parse_url(s.as_str()),
        None => {
            proof {
                assert(url_matches(Seq::<char>::empty()).len() == 0);
            }
            Vec::new()
        },
    }
}

/// Select the single URL candidate of a message.
///
/// Explicit link annotations win over text matches, body sources over
/// caption sources, and earlier candidates over later ones: the result is
/// the first element of the concatenation of the four candidate sources. A
/// message empty of all four sources yields no candidate at all, and a
/// malformed text match is returned as a typed parse failure rather than
/// skipped.
pub fn extract_url(msg: &Message) -> (r: Option<Result<url::Url, UrlError>>)
    ensures
        message_entity_links(*msg).len() > 0 ==> r == Some(
            Ok::<url::Url, UrlError>(message_entity_links(*msg)[0]),
        ),
        message_entity_links(*msg).len() == 0 && message_text_matches(*msg).len() > 0 ==> {
            &&& r is Some
            &&& ((r.unwrap() is Ok) <==> url_parse_ok(message_text_matches(*msg)[0]))
            &&& ((r.unwrap() is Ok) ==> r.unwrap()->Ok_0 == url_of(message_text_matches(*msg)[0]))
            &&& ((r.unwrap() is Err) ==> r.unwrap()->Err_0 == UrlError::UrlParseFailed)
        },
        message_entity_links(*msg).len() == 0 && message_text_matches(*msg).len() == 0 ==> r
            is None,
{
    let body_link = first_entity_link(&msg.entities);
    match body_link {
        Some(u) => {
            proof {
                assert(message_entity_links(*msg)[0] == entity_links(msg.entities@)[0]);
            }
            return Some(Ok(u));
        },
        None => {
        },
    }
    let caption_link = first_entity_link(&msg.caption_entities);
    match caption_link {
        Some(u) => {
            proof {
                assert(message_entity_links(*msg)[0] == entity_links(msg.caption_entities@)[0]);
            }
            return Some(Ok(u));
        },
        None => {
        },
    }
    let mut body_results = text_candidates(&msg.text);
    if body_results.len() > 0 {
        let first = body_results.remove(0);
        proof {
            assert(message_text_matches(*msg)[0] == url_matches(opt_text(msg.text))[0]);
        }
        return Some(first);
    }
    let mut caption_results = text_candidates(&msg.caption);
    if caption_results.len() > 0 {
        let first = caption_results.remove(0);
        proof {
            assert(message_text_matches(*msg)[0] == url_matches(opt_text(msg.caption))[0]);
        }
        return Some(first);
    }
    None
}

} // verus!
