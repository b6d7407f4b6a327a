use readingtime::article::calculate_reading_time;

fn article_page(body_words: &str, script_words: &str) -> String {
    let mut page = String::new();
    page.push_str("<html><head><title>A Page</title>");
    if !script_words.is_empty() {
        page.push_str("<script>");
        page.push_str(script_words);
        page.push_str("</script>");
    }
    page.push_str("</head><body><article><h1>Heading</h1>");
    for _ in 0..3 {
        page.push_str("<p>");
        page.push_str(body_words);
        page.push_str("</p>");
    }
    page.push_str("</article></body></html>");
    page
}

#[test]
fn readable_article_yields_minutes() {
    let body = "The quick brown fox jumps over the lazy dog near the quiet river bank today. \
                It keeps running through the field while the sun sets slowly behind the hills. \
                Nobody watches it go by and the evening stays calm for a long while after that.";
    let page = article_page(body, "");
    let time = calculate_reading_time(&page, 1000).unwrap();
    assert_eq!(time, 1);
}

#[test]
fn script_text_does_not_inflate_the_estimate() {
    let body = "Short note about one small thing that happened earlier today in town. \
                A second sentence keeps the paragraph from looking empty to the extractor. \
                And one more closes it out so the content is clearly the main article here.";
    let noise = "var words = 'lots and lots of words that are not part of the readable page';"
        .repeat(200);
    let page = article_page(body, &noise);
    // the three paragraphs hold well under 300 words; the script alone holds
    // thousands, so an estimate that saw the raw document would be far larger
    let time = calculate_reading_time(&page, 300).unwrap();
    assert_eq!(time, 1);
}

#[test]
fn zero_wpm_is_a_caller_error_and_one_is_allowed() {
    let body = "Ten tiny words stand in this sentence for the count here and there. \
                More filler text follows so that the extraction pass finds an article. \
                The final sentence rounds out the paragraph with a few more words.";
    let page = article_page(body, "");
    let time = calculate_reading_time(&page, 1).unwrap();
    assert!(time >= 1);
}
