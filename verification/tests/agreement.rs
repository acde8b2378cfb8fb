use network_logger::handlers::common::get_client_ip;
use network_logger::handlers::dashboard::{domain_from_url, filter_from_query, position_below};
use network_logger::text::{index_of_char, trim};

/// Every text of up to `max` characters over `alphabet`.
fn texts(alphabet: &[char], max: usize) -> Vec<String> {
    let mut all = vec![String::new()];
    let mut last = vec![String::new()];
    for _ in 0..max {
        let mut next = Vec::new();
        for text in &last {
            for c in alphabet {
                let mut longer = text.clone();
                longer.push(*c);
                next.push(longer);
            }
        }
        all.extend(next.iter().cloned());
        last = next;
    }
    all
}

/// The domain of a URL, by the string functions of the standard library. A
/// `://` counts as the end of a scheme only where no `/`, `?` or `#` stands
/// before it.
fn domain_by_std(s: &str) -> Option<String> {
    let s = s.trim();
    if s.is_empty() {
        return None;
    }
    let rest = match s.find("://") {
        Some(pos) if !s[..pos].contains(&['/', '?', '#'][..]) => &s[pos + 3..],
        _ => s,
    };
    let host = rest.split(&['/', '?', '#'][..]).next().unwrap_or(rest);
    let domain = host.split(':').next().unwrap_or(host).trim();
    if domain.is_empty() {
        None
    } else {
        Some(domain.to_string())
    }
}

/// The filter of a query string, by the string functions of the standard
/// library.
fn filter_by_std(query: &str) -> String {
    query
        .split('&')
        .find_map(|p| {
            let (k, v) = p.split_once('=')?;
            if k == "filter" {
                Some(v)
            } else {
                None
            }
        })
        .unwrap_or("all")
        .to_string()
}

/// The position that an identifier names, by the number parser of the
/// standard library.
fn position_by_std(id: &str, bound: usize) -> Option<usize> {
    let n = id.strip_prefix("evt-")?.parse::<usize>().ok()?;
    if n < bound {
        Some(n)
    } else {
        None
    }
}

#[test]
fn domain_agrees_with_the_standard_library() {
    for text in texts(&['a', ':', '/', '?', '#', ' ', 'é'], 6) {
        assert_eq!(domain_from_url(&text), domain_by_std(&text), "{:?}", text);
    }
}

#[test]
fn domain_agrees_on_longer_urls() {
    let samples = [
        "https://ads.tracker.com:8443/x?y=1",
        "  HTTP://Example.COM:80/a/b?c=d#e  ",
        "ftp://user:pw@files.example.org:21/pub",
        "//cdn.example.net/lib.js",
        "mailto:someone@example.com",
        "https://[::1]:8080/",
        "chrome-extension://abcdef/popup.html",
        "\u{3000}https://全角.example/\u{3000}",
        "about:blank",
        "data:text/html,<p>://</p>",
        "example.com/r?u=http://evil.com",
        "https://example.com/r?u=http://evil.com",
        "example.com#frag://x",
    ];
    for text in samples {
        assert_eq!(domain_from_url(text), domain_by_std(text), "{:?}", text);
    }
}

#[test]
fn filter_agrees_with_the_standard_library() {
    let pieces = ["filter", "=", "&", "a", "security"];
    let mut queries = vec![String::new()];
    let mut last = vec![String::new()];
    for _ in 0..5 {
        let mut next = Vec::new();
        for query in &last {
            for piece in pieces {
                next.push(format!("{}{}", query, piece));
            }
        }
        queries.extend(next.iter().cloned());
        last = next;
    }
    for query in queries {
        assert_eq!(filter_from_query(&query), filter_by_std(&query), "{:?}", query);
    }
}

#[test]
fn position_agrees_with_the_standard_library() {
    for tail in texts(&['0', '1', '9', '+', '-', 'x', ' '], 5) {
        for prefix in ["evt-", "evt", "Evt-", ""] {
            let id = format!("{}{}", prefix, tail);
            for bound in [0usize, 1, 2, 10, 500] {
                assert_eq!(position_below(&id, bound), position_by_std(&id, bound), "{:?}", id);
            }
        }
    }
}

#[test]
fn position_agrees_near_the_greatest_number() {
    let ids = [
        "evt-18446744073709551614",
        "evt-18446744073709551615",
        "evt-18446744073709551616",
        "evt-99999999999999999999",
        "evt-00000000000000000000000000000000000007",
        "evt-+18446744073709551614",
    ];
    for id in ids {
        for bound in [8usize, usize::MAX] {
            assert_eq!(position_below(id, bound), position_by_std(id, bound), "{:?}", id);
        }
    }
}

#[test]
fn first_forwarded_entry_agrees_with_the_standard_library() {
    for list in texts(&['1', '.', ',', ' ', '\t'], 6) {
        let by_std = list.split(',').next().unwrap_or("").trim().to_string();
        assert_eq!(get_client_ip(None, Some(&list), Some("r")), by_std, "{:?}", list);
    }
}

#[test]
fn trim_and_search_agree_with_the_standard_library() {
    for text in texts(&['a', ' ', '\n', '\u{a0}', ','], 6) {
        assert_eq!(trim(&text), text.trim(), "{:?}", text);
        let by_std = text.chars().position(|c| c == ',').unwrap_or(text.chars().count());
        assert_eq!(index_of_char(&text, ','), by_std, "{:?}", text);
    }
}
