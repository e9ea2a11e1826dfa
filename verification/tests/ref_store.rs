use h264_recon::picture::Picture;
use h264_recon::ref_store::{NoRefs, RefPicProvider, RefPicStore};

fn pic(w: u32, fill: i32) -> Picture {
    let mut p = Picture::new(w, w, 1, 8, 8);
    p.fill_luma(fill);
    p
}

#[test]
fn store_insert_and_get_by_key() {
    let mut s = RefPicStore::new();
    s.insert(0, pic(16, 10));
    s.insert(3, pic(16, 40));
    assert!(s.get_by_key(0).is_some());
    assert!(s.get_by_key(1).is_none());
    assert!(s.get_by_key(2).is_none());
    assert!(s.get_by_key(3).is_some());
    assert!(s.get_by_key(4).is_none());
}

#[test]
fn store_list0_lookup() {
    let mut s = RefPicStore::new();
    s.insert(5, pic(16, 42));
    s.insert(7, pic(16, 99));
    s.set_list_0(vec![5, 7]);
    assert_eq!(s.ref_pic(0, 0).unwrap().luma_at(0, 0), 42);
    assert_eq!(s.ref_pic(0, 1).unwrap().luma_at(0, 0), 99);
    assert!(s.ref_pic(0, 2).is_none());
    assert!(s.ref_pic(1, 0).is_none());
}

#[test]
fn store_list1_lookup_after_set() {
    let mut s = RefPicStore::new();
    s.insert(0, pic(16, 1));
    s.set_list_1(vec![0]);
    assert_eq!(s.ref_pic(1, 0).unwrap().luma_at(0, 0), 1);
}

#[test]
fn store_retain_keys_prunes_dead_pictures() {
    let mut s = RefPicStore::new();
    for k in 0..10 {
        s.insert(k, pic(16, k as i32));
    }
    assert_eq!(s.stored_count(), 10);
    s.retain_keys(&[3, 7]);
    assert_eq!(s.stored_count(), 2);
    assert!(s.get_by_key(3).is_some());
    assert!(s.get_by_key(7).is_some());
    assert!(s.get_by_key(0).is_none());
    assert!(s.get_by_key(9).is_none());
    s.retain_keys(&[]);
    assert_eq!(s.stored_count(), 0);
}

#[test]
fn store_unknown_list_returns_none() {
    let s = RefPicStore::new();
    assert!(s.ref_pic(2, 0).is_none());
}

#[test]
fn no_refs_always_none() {
    let nr = NoRefs;
    assert!(nr.ref_pic(0, 0).is_none());
    assert!(nr.ref_pic(1, 0).is_none());
    assert!(nr.ref_pic(5, 99).is_none());
}

#[test]
fn store_insert_replaces_the_picture_of_a_key() {
    let mut s = RefPicStore::new();
    s.insert(5, pic(16, 42));
    s.set_list_0(vec![9, 5]);
    s.insert(5, pic(16, 43));
    assert_eq!(s.stored_count(), 1);
    assert_eq!(s.ref_pic(0, 1).unwrap().luma_at(3, 3), 43);
    assert!(s.ref_pic(0, 0).is_none());
}

#[test]
fn store_retain_keys_keeps_lists_and_ignores_unknown_keys() {
    let mut s = RefPicStore::new();
    s.insert(1, pic(16, 11));
    s.insert(2, pic(16, 12));
    s.set_list_0(vec![1, 2]);
    s.retain_keys(&[2, 2, 8]);
    assert_eq!(s.stored_count(), 1);
    assert!(s.ref_pic(0, 0).is_none());
    assert_eq!(s.ref_pic(0, 1).unwrap().luma_at(0, 0), 12);
}

#[test]
fn store_serves_pictures_only() {
    let mut s = RefPicStore::default();
    let mut p = pic(16, 1);
    p.pic_order_cnt = 12;
    s.insert(0, p);
    s.set_list_0(vec![0]);
    assert_eq!(s.ref_pic_poc(0, 0), Some(12));
    assert_eq!(s.ref_pic_poc(0, 1), None);
    assert!(s.ref_list_0_pocs().is_empty());
    assert_eq!(s.ref_field_parity(0, 0), None);
    assert_eq!(s.ref_entry_identity(0, 0), None);
    assert!(s.ref_pair_field(0, 0, true).is_none());
}

#[test]
fn store_counts_keys() {
    let mut s = RefPicStore::new();
    s.insert(1, pic(16, 1));
    s.insert(2, pic(16, 2));
    assert_eq!(s.stored_count(), 2);
    s.insert(2, pic(16, 3));
    assert_eq!(s.stored_count(), 2);
    s.insert(9, pic(16, 4));
    assert_eq!(s.stored_count(), 3);
    assert_eq!((0..20).filter(|&k| s.get_by_key(k).is_some()).count(), 3);
}
