use byteview::StrView;

#[test]
fn strview_cmp_misc_1() {
    let a = StrView::new("abcdef");
    let b = StrView::new("abcdefhelloworldhelloworld");
    assert!(a < b);
}

#[test]
fn strview_nostr() {
    let slice = StrView::new("");
    assert_eq!(0, slice.len());
    assert_eq!(&*slice, "");
}

#[test]
fn strview_default_str() {
    let slice = StrView::default();
    assert_eq!(0, slice.len());
    assert_eq!(&*slice, "");
}

#[test]
fn strview_short_str() {
    let slice = StrView::new("abcdef");
    assert_eq!(6, slice.len());
    assert_eq!(&*slice, "abcdef");
}

#[test]
fn strview_medium_str() {
    let slice = StrView::new("abcdefabcdef");
    assert_eq!(12, slice.len());
    assert_eq!(&*slice, "abcdefabcdef");
}

#[test]
fn strview_medium_long_str() {
    let slice = StrView::new("abcdefabcdefabcdabcd");
    assert_eq!(20, slice.len());
    assert_eq!(&*slice, "abcdefabcdefabcdabcd");
}

#[test]
fn strview_medium_str_clone() {
    let slice = StrView::new("abcdefabcdefabcdefa");

    #[allow(clippy::redundant_clone)]
    let copy = slice.clone();

    assert_eq!(slice, copy);
}

#[test]
fn strview_long_str() {
    let slice = StrView::new("abcdefabcdefabcdefababcd");
    assert_eq!(24, slice.len());
    assert_eq!(&*slice, "abcdefabcdefabcdefababcd");
}

#[test]
fn strview_long_str_clone() {
    let slice = StrView::new("abcdefabcdefabcdefababcd");

    #[allow(clippy::redundant_clone)]
    let copy = slice.clone();

    assert_eq!(slice, copy);
}

#[test]
fn strview_long_str_slice_full() {
    let slice = StrView::new("helloworld_thisisalongstring");

    let copy = slice.slice(..);
    assert_eq!(copy, slice);
}

#[test]
fn strview_long_str_slice() {
    let slice = StrView::new("helloworld_thisisalongstring");

    let copy = slice.slice(11..);
    assert_eq!("thisisalongstring", &*copy);
}

#[test]
fn strview_long_str_slice_twice() {
    let slice = StrView::new("helloworld_thisisalongstring");

    let copy = slice.slice(11..);
    assert_eq!("thisisalongstring", &*copy);

    let copycopy = copy.slice(..);
    assert_eq!(copy, copycopy);
}

#[test]
fn strview_long_str_slice_downgrade() {
    let slice = StrView::new("helloworld_thisisalongstring");

    let copy = slice.slice(11..);
    assert_eq!("thisisalongstring", &*copy);

    let copycopy = copy.slice(0..4);
    assert_eq!("this", &*copycopy);

    {
        let copycopy = copy.slice(0..=4);
        assert_eq!("thisi", &*copycopy);
        assert_eq!('t', copycopy.chars().next().unwrap());
    }
}

#[test]
fn strview_short_str_clone() {
    let slice = StrView::new("abcdef");
    let copy = slice.clone();
    assert_eq!(slice, copy);

    drop(slice);
    assert_eq!(&*copy, "abcdef");
}

#[test]
fn strview_short_str_slice_full() {
    let slice = StrView::new("abcdef");
    let copy = slice.slice(..);
    assert_eq!(slice, copy);

    drop(slice);
    assert_eq!(&*copy, "abcdef");
}

#[test]
fn strview_short_str_slice_part() {
    let slice = StrView::new("abcdef");
    let copy = slice.slice(3..);

    drop(slice);
    assert_eq!(&*copy, "def");
}

#[test]
fn strview_short_str_slice_empty() {
    let slice = StrView::new("abcdef");
    let copy = slice.slice(0..0);

    drop(slice);
    assert_eq!(&*copy, "");
}

#[test]
fn strview_tiny_str_starts_with() {
    let a = StrView::new("abc");
    assert!(a.starts_with("ab"));
    assert!(!a.starts_with("b"));
}

#[test]
fn strview_long_str_starts_with() {
    let a = StrView::new("abcdefabcdefabcdefabcdefabcdefabcdefabcdefabcdef");
    assert!(a.starts_with("abcdef"));
    assert!(!a.starts_with("def"));
}

#[test]
fn strview_tiny_str_cmp() {
    let a = StrView::new("abc");
    let b = StrView::new("def");
    assert!(a < b);
}

#[test]
fn strview_tiny_str_eq() {
    let a = StrView::new("abc");
    let b = StrView::new("def");
    assert!(a != b);
}

#[test]
fn strview_long_str_eq() {
    let a = StrView::new("abcdefabcdefabcdefabcdef");
    let b = StrView::new("xycdefabcdefabcdefabcdef");
    assert!(a != b);
}

#[test]
fn strview_long_str_cmp() {
    let a = StrView::new("abcdefabcdefabcdefabcdef");
    let b = StrView::new("xycdefabcdefabcdefabcdef");
    assert!(a < b);
}

#[test]
fn strview_long_str_eq_2() {
    let a = StrView::new("abcdefabcdefabcdefabcdef");
    let b = StrView::new("abcdefabcdefabcdefabcdef");
    assert!(a == b);
}

#[test]
fn strview_long_str_cmp_2() {
    let a = StrView::new("abcdefabcdefabcdefabcdef");
    let b = StrView::new("abcdefabcdefabcdefabcdeg");
    assert!(a < b);
}

#[test]
fn strview_long_str_cmp_3() {
    let a = StrView::new("abcdefabcdefabcdefabcde");
    let b = StrView::new("abcdefabcdefabcdefabcdef");
    assert!(a < b);
}
