use adapter_core::adapters::AdapterMeta;
use adapter_core::matching::FastMatcher;
use adapter_core::matching::SlowMatcher;

fn meta(slow: Option<Vec<SlowMatcher>>) -> AdapterMeta {
    AdapterMeta {
        name: "zip".to_string(),
        version: 1,
        description: "zip files".to_string(),
        fast_matchers: vec![
            FastMatcher::FileExtension("zip".to_string()),
            FastMatcher::FileExtension("jar".to_string()),
        ],
        slow_matchers: slow,
    }
}

fn show(list: &[SlowMatcher]) -> Vec<String> {
    list.iter().map(|m| format!("{:?}", m)).collect()
}

#[test]
fn fast_matchers_are_wrapped() {
    let m = meta(Some(vec![SlowMatcher::MimeType("application/zip".to_string())]));
    let got = m.get_matchers(false);
    assert_eq!(got.len(), 2);
    assert_eq!(
        show(&got),
        vec!["Fast(FileExtension(\"zip\"))", "Fast(FileExtension(\"jar\"))"]
    );
}

#[test]
fn slow_matchers_replace_fast_ones() {
    let m = meta(Some(vec![
        SlowMatcher::MimeType("application/zip".to_string()),
        SlowMatcher::Fast(FastMatcher::FileExtension("zipx".to_string())),
    ]));
    assert_eq!(
        show(&m.get_matchers(true)),
        vec!["MimeType(\"application/zip\")", "Fast(FileExtension(\"zipx\"))"]
    );
}

#[test]
fn empty_slow_list_still_replaces() {
    let m = meta(Some(vec![]));
    assert!(m.get_matchers(true).is_empty());
    assert_eq!(m.get_matchers(false).len(), 2);
}

#[test]
fn missing_slow_list_falls_back() {
    let m = meta(None);
    assert_eq!(show(&m.get_matchers(true)), show(&m.get_matchers(false)));
    assert_eq!(m.get_matchers(true).len(), 2);
}

#[test]
fn matchers_can_be_asked_for_again() {
    let m = meta(None);
    assert_eq!(show(&m.get_matchers(false)), show(&m.get_matchers(false)));
    assert_eq!(m.fast_matchers.len(), 2);
}
