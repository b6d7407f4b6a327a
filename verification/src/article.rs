//! Readability-style article extraction: the shipped estimation strategy.
//!
//! The extraction pass identifies the main article content of a page,
//! stripping navigation, ads and chrome, and yields one flattened text
//! string. Unlike the tolerant full-document walk of [`crate::dom`], this
//! pass can fail: a document in which no readable article is found surfaces
//! as a typed error rather than as a zero-word success.

use crate::text::{ceil_div, word_count};
use vstd::prelude::*;

verus! {

/// Why a reading-time estimate could not be produced.
#[derive(Clone, Copy, Debug, PartialEq, Eq, Structural)]
pub enum ReadingTimeError {
    /// The parser failed to grab the article.
    DomSmoothieError,
}

/// The flattened text of the readable article of an HTML document, or none
/// when the extraction pass rejects the document. The outcome depends on
/// the document alone.
pub uninterp spec fn article_extraction(html: Seq<char>) -> Option<Seq<char>>;

/// Relies on `dom_smoothie::Readability::new` and `Readability::parse`: the
/// readability pass either yields an article, whose flattened text stands
/// in its `text_content` field, or fails; which of the two happens, and the
/// text itself, depend on the HTML document alone.
#[verifier::external_body]
fn extract_article_text(content: &str) -> (r: Result<String, ReadingTimeError>)
    ensures
        (r is Ok) <==> (article_extraction(content@) is Some),
        (r is Ok) ==> r.unwrap()@ == article_extraction(content@).unwrap(),
        (r is Err) ==> r->Err_0 == ReadingTimeError::DomSmoothieError,
{
    let article = dom_smoothie::Readability::new(content, None, None)
        .map_err(|_| ReadingTimeError::DomSmoothieError)?
        .parse()
        .map_err(|_| ReadingTimeError::DomSmoothieError)?;
    Ok(article.text_content.to_string())
}

/// Reading time of the readable article of `content`, in whole minutes.
///
/// The article text is extracted by the readability pass, its
/// whitespace-separated words are counted, and the count is divided by
/// `wpm` rounding up, so a non-zero word count under one minute still
/// yields one minute. A document with no readable article is a typed error.
pub fn calculate_reading_time(content: &str, wpm: usize) -> (r: Result<usize, ReadingTimeError>)
    requires
        wpm >= 1,
    ensures
        (r is Ok) <==> (article_extraction(content@) is Some),
        (r is Ok) ==> r.unwrap() as int == ceil_div(
            word_count(article_extraction(content@).unwrap()) as int,
            wpm as int,
        ),
        (r is Err) ==> r->Err_0 == ReadingTimeError::DomSmoothieError,
{
    match extract_article_text(content) {
        Ok(text) => {
            let words = crate::text::count_words(text.as_str());
            Ok(crate::text::reading_minutes(words, wpm))
        },
        Err(e) => Err(e),
    }
}

/// A document whose readable article holds no words at all — a script-only
/// page, say, once the pass strips the script — reads in zero minutes,
/// whatever the rate.
pub proof fn lemma_no_words_zero_minutes(html: Seq<char>, wpm: int)
    requires
        wpm >= 1,
        article_extraction(html) is Some,
        word_count(article_extraction(html).unwrap()) == 0,
    ensures
        ceil_div(word_count(article_extraction(html).unwrap()) as int, wpm) == 0,
{
    vstd::arithmetic::div_mod::lemma_basic_div(wpm - 1, wpm);
}

} // verus!
