use byteview::{ByteView, StrView, INLINE_SIZE};
use std::cmp::Ordering;
use std::collections::hash_map::DefaultHasher;
use std::hash::{Hash, Hasher};
use std::io::Cursor;

fn hash_of(v: &ByteView) -> u64 {
    let mut h = DefaultHasher::new();
    v.hash(&mut h);
    h.finish()
}

fn sample(n: usize) -> Vec<u8> {
    (0..n).map(|i| (i * 7 + 3) as u8).collect()
}

#[test]
fn round_trip_across_the_inline_boundary() {
    for n in [0, 1, 3, 4, 5, INLINE_SIZE - 1, INLINE_SIZE, INLINE_SIZE + 1, 100] {
        let bytes = sample(n);
        let v = ByteView::new(&bytes);
        assert_eq!(v.as_slice(), &bytes[..]);
        assert_eq!(v.len(), n);
        assert_eq!(v.is_inline(), n <= INLINE_SIZE);
        assert_eq!(v.prefix(), &bytes[..n.min(4)]);
        assert_eq!(v.ref_count(), 1);
    }
}

#[test]
fn from_vec_keeps_the_bytes() {
    for n in [0, 4, INLINE_SIZE, INLINE_SIZE + 1, 64] {
        let bytes = sample(n);
        let v = ByteView::from_vec(bytes.clone());
        assert_eq!(&*v, &bytes[..]);
        assert_eq!(v.is_inline(), n <= INLINE_SIZE);
    }
}

#[test]
fn empty_value() {
    let v = ByteView::new(b"");
    assert!(v.is_empty());
    assert!(v.is_inline());
    assert_eq!(v.prefix(), b"");
    assert_eq!(v.as_slice(), b"");
    assert_eq!(v.ref_count(), 1);
}

#[test]
fn clone_shares_and_releases_the_buffer() {
    let v = ByteView::new(b"abcdefabcdefabcdefababcd");
    assert!(!v.is_inline());
    assert_eq!(v.prefix(), b"abcd");
    let c = v.clone();
    assert_eq!(v.ref_count(), 2);
    assert_eq!(c.ref_count(), 2);
    assert_eq!(&*c, &*v);
    assert!(c == v);
    assert_eq!(c.cmp(&v), Ordering::Equal);
    drop(c);
    assert_eq!(v.ref_count(), 1);
    assert_eq!(&*v, b"abcdefabcdefabcdefababcd");
}

#[test]
fn long_slice_shares_the_buffer() {
    let v = ByteView::new(b"helloworld_thisisalongstring_and_more");
    let s = v.slice(11..);
    assert!(!s.is_inline());
    assert_eq!(&*s, b"thisisalongstring_and_more");
    assert_eq!(s.prefix(), b"this");
    assert_eq!(v.ref_count(), 2);
    drop(v);
    assert_eq!(s.ref_count(), 1);
    assert_eq!(&*s, b"thisisalongstring_and_more");
}

#[test]
fn slice_window_matches_bytes() {
    let bytes = sample(40);
    let v = ByteView::new(&bytes);
    for (i, j) in [(0, 0), (0, 4), (3, 9), (5, 26), (10, 40), (0, 40), (39, 40)] {
        assert_eq!(&*v.slice(i..j), &bytes[i..j]);
    }
    assert_eq!(&*v.slice(2..=5), &bytes[2..=5]);
    assert_eq!(&*v.slice(..=7), &bytes[..=7]);
    assert_eq!(&*v.slice(..30), &bytes[..30]);
}

#[test]
fn downgraded_slice_leaves_count_alone() {
    let v = ByteView::new(b"helloworld_thisisalongstring");
    let s = v.slice(11..15);
    assert_eq!(&*s, b"this");
    assert!(s.is_inline());
    assert_eq!(v.ref_count(), 1);
}

#[test]
fn child_prefix_comes_from_its_window() {
    let v = ByteView::new(b"0123456789abcdefghijklmnopqrstuvwxyz");
    let s = v.slice(6..30);
    assert!(!s.is_inline());
    assert_eq!(s.prefix(), b"6789");
    assert_eq!(&*s, b"6789abcdefghijklmnopqrst");
}

#[test]
fn comparison_matches_byte_order() {
    let cases: Vec<Vec<u8>> = vec![
        vec![],
        vec![0],
        vec![0, 0],
        vec![1, 2, 3],
        vec![1, 2, 3, 4],
        vec![1, 2, 3, 4, 5],
        sample(19),
        sample(20),
        sample(21),
        sample(30),
        vec![255; 13],
        vec![255, 255, 255, 255, 255, 255, 255, 255, 255, 255, 255, 255, 0],
    ];
    for a in &cases {
        for b in &cases {
            let va = ByteView::new(a);
            let vb = ByteView::new(b);
            assert_eq!(va.cmp(&vb), a.cmp(b));
            assert_eq!(va.partial_cmp(&vb), Some(a.cmp(b)));
            assert_eq!(va == vb, a == b);
            assert_eq!(va.starts_with(b), a.starts_with(b));
        }
    }
}

#[test]
fn longer_wins_on_equal_prefix() {
    assert!(ByteView::new(&[0, 0]) > ByteView::new(&[0]));
}

#[test]
fn thirteen_byte_tie_broken_at_last_byte() {
    let a = ByteView::new(&[255; 13]);
    let b = ByteView::new(&[255, 255, 255, 255, 255, 255, 255, 255, 255, 255, 255, 255, 0]);
    assert!(a > b);
}

#[test]
fn starts_with_examples() {
    let a = ByteView::new(b"abc");
    assert!(a.starts_with(b"ab"));
    assert!(!a.starts_with(b"b"));
    assert!(a.starts_with(b""));
    assert!(a.starts_with(b"abc"));
    assert!(!a.starts_with(b"abcd"));
}

#[test]
fn mutate_long_value_refreshes_prefix() {
    let mut v = ByteView::with_size(30);
    {
        let mut m = v.get_mut().unwrap();
        for (i, b) in [1u8, 2, 3, 4].iter().enumerate() {
            m.set(i, *b);
        }
    }
    assert_eq!(v.len(), 30);
    assert_eq!(v.prefix(), [1, 2, 3, 4]);
    assert_eq!(&v[..4], [1, 2, 3, 4]);
    assert!(v[4..].iter().all(|b| *b == 0));
}

#[test]
fn shared_value_refuses_mutation() {
    let mut v = ByteView::new(b"abcdefabcdefabcdefababcd");
    let c = v.clone();
    assert!(v.get_mut().is_none());
    drop(c);
    assert!(v.get_mut().is_some());
    let mut small = ByteView::new(b"abc");
    let _keep = small.clone();
    assert!(small.get_mut().is_some());
}

#[test]
fn detached_copy_has_its_own_buffer() {
    let v = ByteView::new(b"abcdefabcdefabcdefababcd");
    let _c = v.clone();
    let d = v.to_detached();
    assert_eq!(d.ref_count(), 1);
    assert_eq!(v.ref_count(), 2);
    assert_eq!(&*d, &*v);
}

#[test]
fn from_reader_reports_short_input() {
    let mut cursor = Cursor::new(b"abc".to_vec());
    let r = ByteView::from_reader(&mut cursor, 6);
    assert!(r.is_err());
}

#[test]
fn from_reader_long_input() {
    let data = sample(50);
    let mut cursor = Cursor::new(data.clone());
    let v = ByteView::from_reader(&mut cursor, 40).unwrap();
    assert_eq!(&*v, &data[..40]);
    assert!(!v.is_inline());
}

#[test]
fn strview_text_round_trip() {
    let s = StrView::new("héllo wörld, a longer text");
    assert_eq!(s.as_str(), "héllo wörld, a longer text");
    assert_eq!(s.to_owned(), String::from("héllo wörld, a longer text"));
    assert_eq!(s.len(), "héllo wörld, a longer text".len());
    let d = s.to_detached();
    assert_eq!(d, s);
    assert_eq!(&*s.slice(0..6), "héllo");
    assert_eq!(s.clone().into_bytes().as_slice(), "héllo wörld, a longer text".as_bytes());
}

#[test]
fn strview_try_from_checks_utf8() {
    let ok = StrView::try_from(ByteView::new("abc".as_bytes())).unwrap();
    assert_eq!(&*ok, "abc");
    assert!(StrView::try_from(ByteView::new(&[0xff, 0xfe])).is_err());
    assert_eq!(StrView::new("abc").cmp(&StrView::new("abd")), Ordering::Less);
}

#[test]
fn equal_values_hash_alike() {
    let long = ByteView::new(b"helloworld_thisisalongstring");
    let window = long.slice(11..);
    let fresh = ByteView::new(b"thisisalongstring");
    assert_eq!(hash_of(&window), hash_of(&fresh));
    assert_eq!(hash_of(&long), hash_of(&long.to_detached()));
}

#[test]
fn value_is_three_words() {
    assert_eq!(std::mem::size_of::<ByteView>(), 3 * std::mem::size_of::<usize>());
    assert_eq!(std::mem::size_of::<Option<ByteView>>(), std::mem::size_of::<ByteView>());
    assert_eq!(std::mem::size_of::<StrView>(), std::mem::size_of::<ByteView>());
}
