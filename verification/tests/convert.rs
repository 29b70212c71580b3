use string_ops::convert::{bytes_of, chars_of};
use string_ops::{MyTraitForString, MyTraitForStringSlice};

#[test]
fn chars_come_in_order() {
    assert_eq!("héllo".to_vec_char(), vec!['h', 'é', 'l', 'l', 'o']);
    assert_eq!(chars_of("a—b"), vec!['a', '—', 'b']);
    assert_eq!(String::from("名前").to_vec_char(), vec!['名', '前']);
}

#[test]
fn chars_of_empty_string_are_none() {
    assert_eq!("".to_vec_char(), Vec::<char>::new());
    assert_eq!(String::new().to_vec_char(), Vec::<char>::new());
}

#[test]
fn chars_put_together_give_the_string() {
    for t in ["", "a", "report[01].txt", "héllo wörld", "名前\n\t", "\u{10FFFF}\u{0}"] {
        let back: String = t.to_vec_char().into_iter().collect();
        assert_eq!(back, t);
        let owned = String::from(t);
        let back: String = owned.to_vec_char().into_iter().collect();
        assert_eq!(back, owned);
    }
}

#[test]
fn bytes_are_the_utf8_encoding() {
    assert_eq!("aé€".to_vec_u8(), vec![0x61, 0xC3, 0xA9, 0xE2, 0x82, 0xAC]);
    assert_eq!(bytes_of("\u{1F600}"), vec![0xF0, 0x9F, 0x98, 0x80]);
    assert_eq!(String::from("ab").to_vec_u8(), vec![0x61, 0x62]);
    assert_eq!("".to_vec_u8(), Vec::<u8>::new());
}

#[test]
fn bytes_decode_to_the_string() {
    for t in ["", "a", "report[01].txt", "héllo wörld", "名前\n\t", "\u{10FFFF}\u{0}"] {
        assert_eq!(String::from_utf8(t.to_vec_u8()).unwrap(), t);
        let owned = String::from(t);
        assert_eq!(String::from_utf8(owned.to_vec_u8()).unwrap(), owned);
    }
}

#[test]
fn path_spells_the_string() {
    assert_eq!("/a/b/c.txt".to_path(), std::path::Path::new("/a/b/c.txt"));
    assert_eq!("".to_path(), std::path::Path::new(""));
}

#[test]
fn path_holds_the_text_of_the_string() {
    for t in ["", "c.txt", "/a/b/c.txt", "a//b/./", "dönër/名前.txt", "a\\b c"] {
        assert_eq!(t.to_path().to_str(), Some(t));
    }
}
