use book_store::book::Book;
use book_store::book::BookPayload;
use book_store::codec::decode_book;
use book_store::codec::encode_book;
use book_store::codec::payload_fits;
use book_store::text::u64_to_dec_string;

fn sample_book() -> Book {
    Book {
        id: 42,
        title: String::from("Dune"),
        author: String::from("Herbert"),
        summary: String::from("sand and spice"),
        store_name: String::from("S1"),
        created_at: 1_700_000_000_000_000_000,
        updated_at: None,
    }
}

#[test]
fn codec_roundtrip_plain_record() {
    let book = sample_book();
    let bytes = encode_book(&book).unwrap();
    assert!(bytes.len() <= 1024);
    let back = decode_book(bytes.as_slice()).unwrap();
    assert_eq!(back, book);
}

#[test]
fn codec_roundtrip_with_update_stamp() {
    let mut book = sample_book();
    book.updated_at = Some(7);
    let bytes = encode_book(&book).unwrap();
    let back = decode_book(bytes.as_slice()).unwrap();
    assert_eq!(back, book);
}

#[test]
fn codec_roundtrip_empty_fields() {
    let book = Book {
        id: 0,
        title: String::new(),
        author: String::new(),
        summary: String::new(),
        store_name: String::new(),
        created_at: 0,
        updated_at: None,
    };
    let bytes = encode_book(&book).unwrap();
    assert_eq!(bytes.len(), 57);
    let back = decode_book(bytes.as_slice()).unwrap();
    assert_eq!(back, book);
}

#[test]
fn codec_roundtrip_multibyte_text() {
    let mut book = sample_book();
    book.title = String::from("Dune — la saga δ 砂");
    book.summary = String::from("ζ\u{1F600}");
    let bytes = encode_book(&book).unwrap();
    let back = decode_book(bytes.as_slice()).unwrap();
    assert_eq!(back, book);
}

#[test]
fn oversized_record_is_refused() {
    let mut book = sample_book();
    book.summary = "x".repeat(1000);
    assert!(encode_book(&book).is_none());
}

#[test]
fn largest_fitting_record_is_accepted() {
    let mut book = sample_book();
    book.title = String::new();
    book.author = String::new();
    book.store_name = String::new();
    book.summary = "x".repeat(1024 - 57);
    let bytes = encode_book(&book).unwrap();
    assert_eq!(bytes.len(), 1024);
    let back = decode_book(bytes.as_slice()).unwrap();
    assert_eq!(back, book);
}

#[test]
fn corrupt_bytes_are_refused() {
    assert!(decode_book(&[]).is_none());
    assert!(decode_book(&[0u8; 56]).is_none());
    let book = sample_book();
    let mut bytes = encode_book(&book).unwrap();
    bytes[16] = 9;
    assert!(decode_book(bytes.as_slice()).is_none());
    let mut truncated = encode_book(&book).unwrap();
    truncated.pop();
    assert!(decode_book(truncated.as_slice()).is_none());
}

#[test]
fn encoding_is_not_the_identity_on_its_input() {
    let book = sample_book();
    let bytes = encode_book(&book).unwrap();
    assert_eq!(&bytes[0..8], &[42, 0, 0, 0, 0, 0, 0, 0]);
    assert_eq!(&bytes[25..33], &[4, 0, 0, 0, 0, 0, 0, 0]);
    assert_eq!(&bytes[33..37], b"Dune");
}

#[test]
fn payload_fits_matches_the_bound() {
    let small = BookPayload {
        title: String::from("t"),
        author: String::from("a"),
        summary: String::from("s"),
        store_name: String::from("n"),
    };
    assert!(payload_fits(&small));
    let big = BookPayload {
        title: "x".repeat(2000),
        author: String::new(),
        summary: String::new(),
        store_name: String::new(),
    };
    assert!(!payload_fits(&big));
    let exact = BookPayload {
        title: "x".repeat(1024 - 57),
        author: String::new(),
        summary: String::new(),
        store_name: String::new(),
    };
    assert!(payload_fits(&exact));
    let over = BookPayload {
        title: "x".repeat(1024 - 56),
        author: String::new(),
        summary: String::new(),
        store_name: String::new(),
    };
    assert!(!payload_fits(&over));
}

#[test]
fn decimal_rendering_is_exact() {
    assert_eq!(u64_to_dec_string(0), "0");
    assert_eq!(u64_to_dec_string(7), "7");
    assert_eq!(u64_to_dec_string(10), "10");
    assert_eq!(u64_to_dec_string(409), "409");
    assert_eq!(u64_to_dec_string(u64::MAX), "18446744073709551615");
}
