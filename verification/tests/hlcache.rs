use ptybridge::hlcache::HlCache;
use ptybridge::protocol::{Attrs, Event};

fn red() -> Attrs {
    Attrs {
        fg: Some(0xff0000),
        ..Attrs::default()
    }
}

#[test]
fn default_attrs_intern_to_zero_without_emitting() {
    let mut cache = HlCache::default();
    let mut out = Vec::new();
    assert_eq!(cache.intern(&Attrs::default(), &mut out), 0);
    assert!(out.is_empty());
}

#[test]
fn first_new_attrs_emit_hl_attr() {
    let mut cache = HlCache::default();
    let mut out = Vec::new();
    let id = cache.intern(&red(), &mut out);
    assert_eq!(id, 1);
    assert_eq!(
        out,
        vec![Event::HlAttr {
            id: 1,
            attrs: red()
        }]
    );
}

#[test]
fn repeated_attrs_reuse_id_without_re_emitting() {
    let mut cache = HlCache::default();
    let mut out = Vec::new();
    let first = cache.intern(&red(), &mut out);
    out.clear();
    let second = cache.intern(&red(), &mut out);
    assert_eq!(first, second);
    assert!(out.is_empty());
}

#[test]
fn distinct_attrs_get_distinct_ids() {
    let mut cache = HlCache::default();
    let mut out = Vec::new();
    let bold = Attrs {
        bold: true,
        ..Attrs::default()
    };
    assert_eq!(cache.intern(&red(), &mut out), 1);
    assert_eq!(cache.intern(&bold, &mut out), 2);
}

#[test]
fn cache_length_counts_the_default_id() {
    let mut cache = HlCache::default();
    assert_eq!(cache.len(), 1);
    let mut out = Vec::new();
    cache.intern(&red(), &mut out);
    cache.intern(&red(), &mut out);
    assert_eq!(cache.len(), 2);
    assert_eq!(out.len(), 1);
}

#[test]
fn a_new_set_gets_one_more_than_the_distinct_sets_before_it() {
    let mut cache = HlCache::default();
    let mut out = Vec::new();
    let set = |fg: u32| Attrs {
        fg: Some(fg),
        ..Attrs::default()
    };
    assert_eq!(cache.intern(&set(1), &mut out), 1);
    assert_eq!(cache.intern(&Attrs::default(), &mut out), 0);
    assert_eq!(cache.intern(&set(1), &mut out), 1);
    assert_eq!(cache.intern(&set(2), &mut out), 2);
    assert_eq!(cache.intern(&set(3), &mut out), 3);
    assert_eq!(out.len(), 3);
}
