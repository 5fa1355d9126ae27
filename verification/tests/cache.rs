use daily_logger::{Acquired, Destination, FileCache};

fn file(name: &str) -> Destination {
    Destination { base: Some("logs".to_string()), file_name: name.to_string() }
}

fn miss() -> Acquired {
    Acquired { opened: true, evicted: None }
}

fn hit() -> Acquired {
    Acquired { opened: false, evicted: None }
}

#[test]
fn a_new_cache_is_empty() {
    let cache = FileCache::new(32);
    assert_eq!(cache.len(), 0);
    assert_eq!(cache.max_size(), 32);
    assert!(!cache.contains(&file("a")));
}

#[test]
fn a_file_is_opened_once() {
    let mut cache = FileCache::new(4);
    assert_eq!(cache.get_or_open(file("a")), miss());
    assert_eq!(cache.get_or_open(file("a")), hit());
    assert_eq!(cache.get_or_open(file("a")), hit());
    assert_eq!(cache.len(), 1);
    assert!(cache.contains(&file("a")));
}

#[test]
fn a_full_cache_puts_out_the_least_recently_used_file() {
    let mut cache = FileCache::new(3);
    assert_eq!(cache.get_or_open(file("a")), miss());
    assert_eq!(cache.get_or_open(file("b")), miss());
    assert_eq!(cache.get_or_open(file("c")), miss());
    assert_eq!(cache.len(), 3);
    assert_eq!(
        cache.get_or_open(file("d")),
        Acquired { opened: true, evicted: Some(file("a")) }
    );
    assert_eq!(cache.len(), 3);
    assert!(!cache.contains(&file("a")));
    assert!(cache.contains(&file("b")));
    assert!(cache.contains(&file("c")));
    assert!(cache.contains(&file("d")));
}

#[test]
fn a_hit_makes_the_file_the_most_recently_used() {
    let mut cache = FileCache::new(3);
    cache.get_or_open(file("a"));
    cache.get_or_open(file("b"));
    cache.get_or_open(file("c"));
    assert_eq!(cache.get_or_open(file("a")), hit());
    assert_eq!(
        cache.get_or_open(file("d")),
        Acquired { opened: true, evicted: Some(file("b")) }
    );
    assert_eq!(
        cache.get_or_open(file("e")),
        Acquired { opened: true, evicted: Some(file("c")) }
    );
    assert_eq!(
        cache.get_or_open(file("f")),
        Acquired { opened: true, evicted: Some(file("a")) }
    );
    assert!(cache.contains(&file("d")));
    assert!(cache.contains(&file("e")));
    assert!(cache.contains(&file("f")));
}

#[test]
fn an_evicted_file_is_opened_again_when_asked_for() {
    let mut cache = FileCache::new(1);
    assert_eq!(cache.get_or_open(file("a")), miss());
    assert_eq!(
        cache.get_or_open(file("b")),
        Acquired { opened: true, evicted: Some(file("a")) }
    );
    assert_eq!(
        cache.get_or_open(file("a")),
        Acquired { opened: true, evicted: Some(file("b")) }
    );
    assert_eq!(cache.len(), 1);
}

#[test]
fn a_cache_made_for_no_file_holds_the_last_one() {
    let mut cache = FileCache::new(0);
    assert_eq!(cache.get_or_open(file("a")), miss());
    assert_eq!(cache.len(), 1);
    assert_eq!(cache.get_or_open(file("a")), hit());
    assert_eq!(
        cache.get_or_open(file("b")),
        Acquired { opened: true, evicted: Some(file("a")) }
    );
    assert_eq!(cache.len(), 1);
}

#[test]
fn the_same_name_under_another_directory_is_another_file() {
    let mut cache = FileCache::new(4);
    let here = Destination { base: None, file_name: "a".to_string() };
    let there = Destination { base: Some("".to_string()), file_name: "a".to_string() };
    assert!(!here.same(&there));
    assert!(here.same(&here.clone()));
    assert!(!file("a").same(&file("b")));
    assert_eq!(cache.get_or_open(here.clone()), miss());
    assert_eq!(cache.get_or_open(there), miss());
    assert_eq!(cache.get_or_open(file("a")), miss());
    assert_eq!(cache.get_or_open(here), hit());
    assert_eq!(cache.len(), 3);
}

#[test]
fn the_cache_never_holds_more_than_it_was_made_for() {
    let mut cache = FileCache::new(32);
    let mut open: Vec<Destination> = Vec::new();
    for i in 0..200usize {
        let path = file(&format!("f{}", (i * 7) % 45));
        let was_open = cache.contains(&path);
        let acquired = cache.get_or_open(path.clone());
        assert_eq!(acquired.opened, !was_open);
        if let Some(gone) = acquired.evicted {
            assert_eq!(open.remove(0), gone);
            assert!(!cache.contains(&gone));
        }
        open.retain(|d| *d != path);
        open.push(path.clone());
        assert!(cache.contains(&path));
        assert_eq!(cache.len(), open.len());
        assert!(cache.len() <= 32);
    }
}
