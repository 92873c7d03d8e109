use const_base::ArrayStr;

#[test]
fn from_utf8_test() {
    ArrayStr::from_utf8([0xFF; 4]).unwrap_err();

    assert_eq!(ArrayStr::from_utf8(*b"hello").unwrap(), "hello")
}

#[test]
fn from_utf8_unwrap_ok_test() {
    assert_eq!(ArrayStr::from_utf8_unwrap(*b"hello"), "hello")
}

#[test]
#[should_panic]
fn from_utf8_unwrap_err_test() {
    ArrayStr::from_utf8_unwrap([0xFF; 4]);
}

#[test]
fn len_test() {
    assert_eq!(ArrayStr::from_utf8_unwrap(*b"").len(), 0);
    assert_eq!(ArrayStr::from_utf8_unwrap(*b"w").len(), 1);
    assert_eq!(ArrayStr::from_utf8_unwrap(*b"wo").len(), 2);
    assert_eq!(ArrayStr::from_utf8_unwrap(*b"wor").len(), 3);
    assert_eq!(ArrayStr::from_utf8_unwrap(*b"worl").len(), 4);
}

#[test]
fn accessors_test() {
    let text: ArrayStr<5> = ArrayStr::from_utf8_unwrap(*b"world");

    {
        let str: &str = text.as_str();
        assert_eq!(str, "world");
    }
    {
        let arr: &[u8; 5] = text.as_array();
        assert_eq!(arr, b"world");
    }
    {
        let arr: [u8; 5] = text.into_array();
        assert_eq!(arr, *b"world");
    }
}

#[test]
fn from_utf8_takes_text_beyond_ascii() {
    let text = ArrayStr::from_utf8(*b"\xf0\x9f\x91\x8d").unwrap();
    assert_eq!(text.as_str(), "\u{1F44D}");
    // a sequence that is cut off is no text
    assert!(ArrayStr::from_utf8(*b"\xf0\x9f\x91").is_err());
}

#[test]
fn equality_with_text_and_with_itself() {
    let hello = ArrayStr::from_utf8(*b"hello").unwrap();
    assert!(hello == "hello");
    assert!(hello == *"hello");
    assert!("hello" == hello);
    assert!(*"hello" == hello);
    assert!(hello != "hellO");
    assert!(hello != "hell");
    assert!(hello == ArrayStr::from_utf8_unwrap(*b"hello"));
    assert!(hello != ArrayStr::from_utf8_unwrap(*b"world"));
}
