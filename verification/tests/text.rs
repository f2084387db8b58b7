use job_watcher::encoding::{percent_decode, to_base64};
use job_watcher::html::{extract_tag_by_attribute, remove_non_content_blocks, strip_html, tag_texts};
use job_watcher::number::{parse_i64, parse_natural, to_decimal, zero_pad};
use job_watcher::scan;

#[test]
fn white_space_is_what_unicode_says() {
    for code in 0..=0x10ffffu32 {
        if let Some(c) = char::from_u32(code) {
            assert_eq!(scan::is_white(c), c.is_whitespace(), "{code:x}");
        }
    }
}

#[test]
fn searches_agree_with_the_standard_library() {
    let texts = ["", "a", "abcabc", "aaa", "日本語 日本", "x<y>z", "ab\r\ncd\n"];
    let patterns = ["a", "abc", "bc", "aa", "日本", "<", "\n", "zz"];
    for s in texts {
        for p in patterns {
            let at = |i: usize| s.char_indices().nth(i).map_or(s.len(), |(b, _)| b);
            assert_eq!(scan::find(s, p).map(at), s.find(p));
            assert_eq!(scan::rfind(s, p).map(at), s.rfind(p));
            assert_eq!(scan::contains(s, p), s.contains(p));
            assert_eq!(scan::starts_with(s, p), s.starts_with(p));
            assert_eq!(scan::ends_with(s, p), s.ends_with(p));
            assert_eq!(scan::replace_all(s, p, "-"), s.replace(p, "-"));
            assert_eq!(scan::drop_prefixes(s, p), s.trim_start_matches(p));
            assert_eq!(scan::drop_suffixes(s, p), s.trim_end_matches(p));
            assert_eq!(scan::strip_prefix(s, p), s.strip_prefix(p));
            assert_eq!(scan::strip_suffix(s, p), s.strip_suffix(p));
            assert_eq!(scan::before(s, p), s.split_once(p).map(|(x, _)| x));
            assert_eq!(scan::after(s, p), s.split_once(p).map(|(_, x)| x));
            assert_eq!(scan::head(s, p), s.split(p).next().unwrap());
        }
        assert_eq!(scan::trim(s), s.trim());
        assert_eq!(scan::lower(s), s.to_ascii_lowercase());
        assert_eq!(scan::byte_len(s), s.len());
        let words: Vec<&str> = s.split_whitespace().collect();
        assert_eq!(scan::words(s), words);
        assert_eq!(scan::squeeze(s), words.join(" "));
    }
}

#[test]
fn tags_and_entities_leave_plain_text() {
    assert_eq!(
        strip_html("<ul><li> one </li><li>two&nbsp;&amp; three<br/>four</li></ul>"),
        "one\ntwo & three\nfour"
    );
    assert_eq!(strip_html("a &gt; b &quot;c&quot; &#39;d&#39; &lt;"), "a > b \"c\" 'd' &lt;");
    assert_eq!(strip_html("<p>  </p>"), "");
}

#[test]
fn scripts_and_styles_are_removed() {
    assert_eq!(
        remove_non_content_blocks("a<SCRIPT x>b</script>c<style>d</STYLE>e<script>f"),
        "ace"
    );
}

#[test]
fn elements_are_found_with_their_contents() {
    let html = "<div class=\"a\">1</div><div class=\"b\">2<div>3<div/></div>4</div>5";
    assert_eq!(
        extract_tag_by_attribute(html, "div", "class", "b"),
        Some("2<div>3<div/></div>4")
    );
    assert_eq!(extract_tag_by_attribute(html, "div", "class", "c"), None);
    assert_eq!(
        extract_tag_by_attribute("<div class=\"b\">open", "div", "class", "b"),
        None
    );
    assert_eq!(
        tag_texts("<span>a</span><span> </span><span x>b<i>c</i></span><span>d", "span"),
        vec!["a", "bc"]
    );
}

#[test]
fn escapes_are_written_out() {
    assert_eq!(percent_decode("a%20b%2Fc"), "a b/c");
    assert_eq!(percent_decode("%E4%B8%AD%"), "中%");
    assert_eq!(percent_decode("%zz%+5"), "%zz\u{5}");
    assert_eq!(percent_decode("%FF"), "\u{fffd}");
    for s in ["100%", "%中", "%a中", "%é"] {
        assert_eq!(percent_decode(s), s);
    }
    assert_eq!(percent_decode("%41中%"), "A中%");
}

#[test]
fn bytes_are_written_in_base64() {
    assert_eq!(to_base64(b"job-watcher"), "am9iLXdhdGNoZXI=");
    assert_eq!(to_base64(&[]), "");
    assert_eq!(to_base64(&[0]), "AA==");
    assert_eq!(to_base64(&[0xfb, 0xff]), "+/8=");
    assert_eq!(to_base64(b"Man"), "TWFu");
}

#[test]
fn numbers_are_written_and_read() {
    assert_eq!(to_decimal(0), "0");
    assert_eq!(to_decimal(u64::MAX), "18446744073709551615");
    assert_eq!(zero_pad("7", 3), "007");
    assert_eq!(zero_pad("1234", 3), "1234");
    for s in ["", "-", "+", "12", "-12", "+12", "1x", "9223372036854775807", "-9223372036854775808", "9223372036854775808"] {
        assert_eq!(parse_i64(s), s.parse::<i64>().ok(), "{s}");
    }
    for s in ["", "+", "+7", "-1", "18446744073709551615", "18446744073709551616", "1 "] {
        assert_eq!(parse_natural(s), s.parse::<u64>().ok(), "{s}");
    }
}
