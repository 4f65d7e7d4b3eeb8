use bwaa::cache::{ChannelCache, MAX_HISTORY_PER_CHANNEL};
use bwaa::model::{Blob, Content, Part, PartData};

fn turn(t: &str) -> Content {
    Content::from_text("user".to_string(), t.to_string())
}

fn texts(cs: &[Content]) -> Vec<String> {
    cs.iter()
        .map(|c| match &c.parts[0].data {
            Some(PartData::Text(t)) => t.clone(),
            _ => String::new(),
        })
        .collect()
}

#[test]
fn new_cache_has_no_history() {
    let mut cache = ChannelCache::new();
    assert!(cache.get_history(1).is_empty());
}

#[test]
fn pushed_turns_come_back_in_order() {
    let mut cache = ChannelCache::new();
    cache.push(7, turn("a"));
    cache.push(7, turn("b"));
    assert_eq!(texts(&cache.get_history(7)), vec!["a", "b"]);
    // Reading leaves the history as it was.
    assert_eq!(texts(&cache.get_history(7)), vec!["a", "b"]);
}

#[test]
fn channels_are_kept_apart() {
    let mut cache = ChannelCache::new();
    cache.push(1, turn("one"));
    cache.push(2, turn("two"));
    assert_eq!(texts(&cache.get_history(1)), vec!["one"]);
    assert_eq!(texts(&cache.get_history(2)), vec!["two"]);
    assert!(cache.get_history(3).is_empty());
}

#[test]
fn history_is_bounded_and_drops_the_oldest() {
    let mut cache = ChannelCache::new();
    for i in 0..15 {
        cache.push(9, turn(&i.to_string()));
    }
    let h = cache.get_history(9);
    assert_eq!(h.len(), MAX_HISTORY_PER_CHANNEL);
    let expected: Vec<String> = (5..15).map(|i: i32| i.to_string()).collect();
    assert_eq!(texts(&h), expected);
}

#[test]
fn push_at_the_bound_keeps_the_newest() {
    let mut cache = ChannelCache::new();
    for i in 0..10 {
        cache.push(4, turn(&i.to_string()));
    }
    assert_eq!(cache.get_history(4).len(), 10);
    cache.push(4, turn("new"));
    let h = texts(&cache.get_history(4));
    assert_eq!(h.len(), 10);
    assert_eq!(h[0], "1");
    assert_eq!(h[9], "new");
}

#[test]
fn cached_messages_show_the_last_turns_with_their_texts() {
    let mut cache = ChannelCache::new();
    cache.push(3, turn("a"));
    cache.push(
        3,
        Content {
            role: "model".to_string(),
            parts: vec![
                Part { data: Some(PartData::Text("x".to_string())) },
                Part { data: Some(PartData::InlineData(Blob { mime_type: "image/png".to_string(), data: vec![1] })) },
                Part { data: Some(PartData::Text("y".to_string())) },
            ],
        },
    );
    cache.push(3, Content { role: "user".to_string(), parts: vec![] });
    let all = cache.to_cached_messages(3, 10);
    let shown: Vec<(&str, &str)> = all.iter().map(|m| (m.role.as_str(), m.content.as_str())).collect();
    assert_eq!(shown, vec![("user", "a"), ("model", "x\ny"), ("user", "")]);
    let last = cache.to_cached_messages(3, 2);
    assert_eq!(last.len(), 2);
    assert_eq!(last[0].content, "x\ny");
    assert!(cache.to_cached_messages(3, 0).is_empty());
    assert!(cache.to_cached_messages(4, 5).is_empty());
    // Reading leaves the cache as it was.
    assert_eq!(cache.get_history(3).len(), 3);
}

#[test]
fn interleaved_pushes_keep_the_newest_per_channel() {
    let mut cache = ChannelCache::new();
    for i in 0..30 {
        let channel = if i % 3 == 0 { 1 } else { 2 };
        cache.push(channel, turn(&i.to_string()));
    }
    let one: Vec<String> = (0..30).filter(|i: &i32| i % 3 == 0).map(|i| i.to_string()).collect();
    assert_eq!(texts(&cache.get_history(1)), one);
    let two: Vec<String> = (0..30).filter(|i: &i32| i % 3 != 0).map(|i| i.to_string()).skip(10).collect();
    assert_eq!(texts(&cache.get_history(2)), two);
}
