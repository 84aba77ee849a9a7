use htmlentity::entity::{
    decode, decode_chars, decode_chars_to, decode_to, encode, encode_char, encode_chars_with,
    encode_to, encode_with, encode_with_to, CharacterSet, DecodeErrorKind, EncodeType, Entity,
    EntityType, IBytesTrait, ICodedDataTrait,
};

fn decoded_string(content: &[u8]) -> String {
    decode(content).to_string().unwrap()
}

#[test]
fn test_named_scenario() {
    // encode the special characters as names, and decode them back
    let encoded = encode(
        b"<div>",
        &EncodeType::Named,
        &CharacterSet::SpecialChars,
    );
    assert_eq!(encoded.to_bytes(), b"&lt;div&gt;".to_vec());
    assert_eq!(decoded_string(b"&lt;div&gt;"), "<div>");
}

#[test]
fn test_named_or_hex_all_scenario() {
    let encoded = encode(b"<div>", &EncodeType::NamedOrHex, &CharacterSet::All);
    assert_eq!(
        encoded.to_string().unwrap(),
        "&lt;&#x64;&#x69;&#x76;&gt;"
    );
}

#[test]
fn test_mixed_document_scenario() {
    let html = "<div name='htmlentity'>Hello!世界!</div>";
    let expected = "&lt;div name='htmlentity'&gt;Hello!&#x4e16;&#x754c;!&lt;/div&gt;";
    let encoded = encode(
        html.as_bytes(),
        &EncodeType::NamedOrHex,
        &CharacterSet::HtmlAndNonASCII,
    );
    assert_eq!(encoded.to_string().unwrap(), expected);
    assert_eq!(decoded_string(expected.as_bytes()), html);
}

#[test]
fn test_numeric_equivalent_forms() {
    // one arrow, four spellings
    assert_eq!(decoded_string(b"&#x2192;"), "→");
    assert_eq!(decoded_string(b"&#X2192;"), "→");
    assert_eq!(decoded_string(b"&#8594;"), "→");
    assert_eq!(decoded_string(b"&#0008594;"), "→");
    // hex digit case does not matter
    assert_eq!(decoded_string(b"&#xAb;"), decoded_string(b"&#xaB;"));
}

#[test]
fn test_out_of_range_kinds() {
    let decoded = decode(b"&#x110000;");
    assert_eq!(decoded.to_string().unwrap(), "&#x110000;");
    let errors = decoded.get_errors();
    assert_eq!(errors.len(), 1);
    assert_eq!(errors[0].1, DecodeErrorKind::OutOfRangeScalar);

    let decoded = decode(b"&#xDC00;");
    assert_eq!(decoded.to_string().unwrap(), "&#xDC00;");
    let errors = decoded.get_errors();
    assert_eq!(errors.len(), 1);
    assert_eq!(errors[0].1, DecodeErrorKind::OutOfRangeScalar);
}

#[test]
fn test_malformed_kinds() {
    let decoded = decode(b"&;");
    assert_eq!(decoded.to_string().unwrap(), "&;");
    let errors = decoded.get_errors();
    assert_eq!(errors.len(), 1);
    assert_eq!(errors[0].1, DecodeErrorKind::EmptyEntity);
    assert_eq!((errors[0].0.start, errors[0].0.end), (0, 1));

    let decoded = decode(b"abc&");
    assert_eq!(decoded.to_string().unwrap(), "abc&");
    let errors = decoded.get_errors();
    assert_eq!(errors.len(), 1);
    assert_eq!(errors[0].1, DecodeErrorKind::UnterminatedEntity);

    let decoded = decode(b"&#1&lt;");
    assert_eq!(decoded.to_string().unwrap(), "&#1<");
    assert_eq!(decoded.entity_count(), 1);
    let errors = decoded.get_errors();
    assert_eq!(errors.len(), 1);
    assert_eq!(errors[0].1, DecodeErrorKind::UnencodedAmpersand);
    assert_eq!((errors[0].0.start, errors[0].0.end), (0, 0));

    let decoded = decode(b"&x-9;");
    assert_eq!(decoded.get_errors()[0].1, DecodeErrorKind::MalformedName);
    let decoded = decode(b"&nosuchname;");
    assert_eq!(decoded.get_errors()[0].1, DecodeErrorKind::UnknownName);
    let decoded = decode(b"&#x0g;");
    assert_eq!(decoded.get_errors()[0].1, DecodeErrorKind::MalformedNumber);
    let decoded = decode(b"&#;");
    assert_eq!(decoded.get_errors()[0].1, DecodeErrorKind::MalformedNumber);
}

#[test]
fn test_entity_recognizer() {
    assert_eq!(Entity::decode(b"lt"), Ok('<'));
    assert_eq!(Entity::decode(b"LT"), Ok('<'));
    assert_eq!(Entity::decode(b"nbsp"), Ok('\u{a0}'));
    assert_eq!(Entity::decode(b"#60"), Ok('<'));
    assert_eq!(Entity::decode(b"#x3c"), Ok('<'));
    assert_eq!(Entity::decode(b"#X3C"), Ok('<'));
    assert_eq!(Entity::decode(b""), Err(DecodeErrorKind::EmptyEntity));
    assert_eq!(Entity::decode(b"l-t"), Err(DecodeErrorKind::MalformedName));
    assert_eq!(
        Entity::decode(b"#xD800"),
        Err(DecodeErrorKind::OutOfRangeScalar)
    );
    assert_eq!(
        Entity::decode(b"#99999999999999999999"),
        Err(DecodeErrorKind::OutOfRangeScalar)
    );
    assert_eq!(
        Entity::decode_chars(&['g', 't']),
        Ok('>')
    );
    assert_eq!(
        Entity::decode_chars(&['世']),
        Err(DecodeErrorKind::UnknownName)
    );
}

#[test]
fn test_encode_char_forms() {
    let character = '<';
    let char_entity = encode_char(&character, &EncodeType::Named);
    assert!(char_entity.is_some());
    assert_eq!(char_entity.unwrap().to_string(), "&lt;");

    let char_entity = encode_char(&character, &EncodeType::Decimal);
    assert!(char_entity.is_some());
    assert_eq!(char_entity.unwrap().to_string(), "&#60;");

    let char_entity = encode_char(&character, &EncodeType::Hex);
    assert!(char_entity.is_some());
    assert_eq!(char_entity.unwrap().to_string(), "&#x3c;");

    // preferred names: the lowercase, shortest spelling wins
    assert_eq!(encode_char(&'>', &EncodeType::Named).unwrap().to_string(), "&gt;");
    assert_eq!(encode_char(&'&', &EncodeType::Named).unwrap().to_string(), "&amp;");
    assert_eq!(encode_char(&'"', &EncodeType::Named).unwrap().to_string(), "&quot;");

    // a character without a name and a names-only policy
    assert!(encode_char(&'a', &EncodeType::Named).is_none());

    let entity = encode_char(&'ℑ', &EncodeType::Named).unwrap();
    assert_eq!(entity.prefix_len(), 0);
    assert_eq!(entity.to_bytes(), b"&image;".to_vec());
    let mut bytes: Vec<u8> = vec![];
    entity.write_bytes(&mut bytes);
    assert_eq!(bytes, b"&image;".to_vec());
    let mut chars: Vec<char> = vec![];
    entity.write_chars(&mut chars);
    assert_eq!(chars.iter().collect::<String>(), "&image;");
    let mut text = String::new();
    entity.write_string(&mut text);
    assert_eq!(text, "&image;");
    assert_eq!(entity.data(), b"image".to_vec());
}

#[test]
fn test_round_trip_all_charsets() {
    let html = "<div class='header'>℗ → &amp; \"x\"</div>";
    for charset in [
        CharacterSet::All,
        CharacterSet::Html,
        CharacterSet::SpecialChars,
        CharacterSet::HtmlAndNonASCII,
        CharacterSet::SpecialCharsAndNonASCII,
    ] {
        for encode_type in [
            EncodeType::Named,
            EncodeType::Hex,
            EncodeType::Decimal,
            EncodeType::NamedOrHex,
            EncodeType::NamedOrDecimal,
        ] {
            let encoded = encode(html.as_bytes(), &encode_type, &charset);
            let decoded = decode(&encoded.to_bytes());
            assert_eq!(decoded.to_bytes(), html.as_bytes().to_vec());
        }
    }
}

#[test]
fn test_idempotent_decode() {
    let first = decode(b"&lt;plain&gt; text &#65;");
    let first_bytes = first.to_bytes();
    let second = decode(&first_bytes);
    assert_eq!(second.to_bytes(), first_bytes);
}

#[test]
fn test_charset_monotone_offsets() {
    let html = "<div class='a'>℗</div>";
    let smaller = encode(html.as_bytes(), &EncodeType::NamedOrHex, &CharacterSet::Html);
    let larger = encode(
        html.as_bytes(),
        &EncodeType::NamedOrHex,
        &CharacterSet::SpecialCharsAndNonASCII,
    );
    // both encodings round-trip, and the larger charset substitutes
    // at least as many runs as the smaller one
    assert_eq!(decode(&smaller.to_bytes()).to_bytes(), html.as_bytes().to_vec());
    assert_eq!(decode(&larger.to_bytes()).to_bytes(), html.as_bytes().to_vec());
    assert!(larger.entity_count() >= smaller.entity_count());
}

#[test]
fn test_buffer_writers() {
    let html = "<div class='header'></div>";
    let mut data: Vec<u8> = vec![];
    encode_to(
        html.as_bytes(),
        &EncodeType::Named,
        &CharacterSet::SpecialChars,
        &mut data,
    );
    assert_eq!(data, b"&lt;div class=&apos;header&apos;&gt;&lt;/div&gt;".to_vec());

    let mut decoded: Vec<u8> = vec![];
    decode_to(&data, &mut decoded);
    assert_eq!(decoded, html.as_bytes().to_vec());

    let mut with_data: Vec<u8> = vec![];
    let charset = CharacterSet::SpecialChars;
    encode_with_to(
        html.as_bytes(),
        &EncodeType::Named,
        |ch: &char, encode_type: &EncodeType| charset.filter(ch, encode_type),
        &mut with_data,
    );
    assert_eq!(with_data, data);
}

#[test]
fn test_chars_api() {
    let char_list = vec!['a', '<', 'b'];
    assert_eq!(
        decode_chars(&"a&lt;b".chars().collect::<Vec<char>>()),
        char_list
    );
    assert_eq!(
        decode_chars(&"a&#60;b".chars().collect::<Vec<char>>()),
        char_list
    );
    assert_eq!(
        decode_chars(&"a&#x3c;b".chars().collect::<Vec<char>>()),
        char_list
    );
    let mut data: Vec<char> = vec![];
    decode_chars_to(&"a&lt;b".chars().collect::<Vec<char>>(), &mut data);
    assert_eq!(data, char_list);

    let chars = "<div class='header'></div>".chars().collect::<Vec<char>>();
    let character_set = CharacterSet::HtmlAndNonASCII;
    let encoded_chars = encode_chars_with(&chars, |ch: &char| {
        if character_set.contains(ch) || *ch == '\'' {
            return Some(EncodeType::Named);
        }
        None
    });
    assert_eq!(
        encoded_chars.iter().collect::<String>(),
        "&lt;div class=&apos;header&apos;&gt;&lt;/div&gt;"
    );
}

#[test]
fn test_view_access() {
    let html = "<div class='header'></div>";
    let encoded = encode(html.as_bytes(), &EncodeType::Named, &CharacterSet::SpecialChars);
    let bytes = b"&lt;div class=&apos;header&apos;&gt;&lt;/div&gt;";
    assert_eq!(encoded.bytes_len(), bytes.len());
    for idx in 0..encoded.bytes_len() {
        assert_eq!(encoded.byte(idx), Some(bytes[idx]));
    }
    assert_eq!(encoded.byte(bytes.len()), None);
    let mut iter = encoded.into_iter();
    let mut collected: Vec<u8> = vec![];
    while let Some((byte, _)) = iter.next() {
        collected.push(byte);
    }
    assert_eq!(collected, bytes.to_vec());

    let decoded = decode(bytes);
    assert_eq!(decoded.bytes_len(), html.len());
    for idx in 0..decoded.bytes_len() {
        assert_eq!(decoded.byte(idx), Some(html.as_bytes()[idx]));
    }
    let mut iter = decoded.into_iter();
    let mut collected: Vec<u8> = vec![];
    let mut tagged = 0usize;
    while let Some((byte, tag)) = iter.next() {
        if tag.is_some() {
            tagged += 1;
        }
        collected.push(byte);
    }
    assert_eq!(collected, html.as_bytes().to_vec());
    assert_eq!(tagged, 6);

    // detaching the encoded view keeps its bytes
    let mut owned = encode(html.as_bytes(), &EncodeType::Named, &CharacterSet::SpecialChars);
    owned.to_owned();
    assert_eq!(owned.entity_count(), 0);
    assert_eq!(owned.into_bytes(), bytes.to_vec());
}

#[test]
fn test_malformed_utf8_passthrough() {
    // a lone continuation byte and a truncated sequence pass through
    let data: Vec<u8> = vec![0x80, b'<', 0xC3];
    let encoded = encode(&data, &EncodeType::NamedOrHex, &CharacterSet::All);
    assert_eq!(encoded.to_bytes(), vec![0x80, b'&', b'l', b't', b';', 0xC3]);
    assert!(encoded.to_string().is_err());
}
