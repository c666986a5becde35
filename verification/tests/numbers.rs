use osm::attribute::find_attribute;
use osm::event::Attribute;
use osm::number::is_float;
use osm::{Coordinate, ErrorReason};

fn attribute(name: &str, value: &str) -> Attribute {
    Attribute { name: String::from(name), value: String::from(value) }
}

fn id_of(text: &str) -> Result<i64, ErrorReason> {
    find_attribute::<i64>("id", &vec![attribute("id", text)])
}

/// Every text of up to `length` characters of `alphabet`.
fn texts(alphabet: &[char], length: usize) -> Vec<String> {
    let mut all = vec![String::new()];
    let mut last = vec![String::new()];
    for _ in 0..length {
        let mut next = Vec::new();
        for text in &last {
            for c in alphabet {
                let mut longer = text.clone();
                longer.push(*c);
                next.push(longer);
            }
        }
        all.extend(next.iter().cloned());
        last = next;
    }
    all
}

#[test]
fn float_texts_are_those_that_std_reads() {
    let alphabet = ['0', '7', '.', 'e', 'E', '+', '-', ' ', 'n', 'a'];
    for text in texts(&alphabet, 5) {
        assert_eq!(is_float(&text), text.parse::<f64>().is_ok(), "{:?}", text);
    }
}

#[test]
fn named_float_texts_are_those_that_std_reads() {
    let alphabet = ['i', 'n', 'f', 'I', 'N', 'F', 'a', 'A', '+', '-'];
    for text in texts(&alphabet, 4) {
        assert_eq!(is_float(&text), text.parse::<f64>().is_ok(), "{:?}", text);
    }
    let alphabet = ['i', 'n', 'f', 't', 'y', 'Y', '-'];
    for text in texts(&alphabet, 5) {
        let mut with_head = String::from("infi");
        with_head.push_str(&text);
        assert_eq!(is_float(&with_head), with_head.parse::<f64>().is_ok(), "{:?}", with_head);
        let mut signed = String::from("+INF");
        signed.push_str(&text);
        assert_eq!(is_float(&signed), signed.parse::<f64>().is_ok(), "{:?}", signed);
    }
}

#[test]
fn float_examples() {
    let good = [
        "54.0889580", "-0.140043", "12", "+12", "5.", ".5", "-.5", "+5.", "0", "00.00",
        "2.5E10", "2.5e-10", "2.5e+10", "1e5", "1E0", ".5e1", "5.e1", "inf", "-inf",
        "+infinity", "Infinity", "INFINITY", "NaN", "nan", "-NAN", "iNf",
        "0000000000000000000000000000000000000000000000001",
        "179769313486231570000000000000000000000000000000000000000000000000000000000000",
        "1e999999999999999999999", "1e-999999999999999999999",
    ];
    for text in good {
        assert!(is_float(text), "{:?}", text);
        assert!(text.parse::<f64>().is_ok(), "{:?}", text);
        assert_eq!(Coordinate::parse(text).unwrap().as_str(), text);
    }
    let bad = [
        "", " ", "+", "-", ".", "+.", "-.", "e", "e5", ".e5", "1e", "1e+", "1e-", "1.5e",
        "1e5.", "1e5.5", "1..5", "1.5.5", "--1", "+-1", "1+", "1-", " 1", "1 ", "1 .5",
        "1_000", "0x10", "1,5", "२", "1.5f", "infinit", "infinityy", "in", "na", "nan1",
        "n an", "+ inf", "invalid", "١٢", "1\u{212a}", "\u{feff}1",
    ];
    for text in bad {
        assert!(!is_float(text), "{:?}", text);
        assert!(text.parse::<f64>().is_err(), "{:?}", text);
        assert!(Coordinate::parse(text).is_none());
    }
}

#[test]
fn coordinate_keeps_its_text() {
    let coordinate = Coordinate::parse("51.5173639").unwrap();
    assert_eq!(coordinate.as_str(), "51.5173639");
    assert_eq!(coordinate.as_str().parse::<f64>().unwrap(), 51.5173639);
    assert_eq!(coordinate.clone(), coordinate);
    assert_ne!(Coordinate::parse("1.0").unwrap(), Coordinate::parse("1").unwrap());
}

#[test]
fn find_coordinate_reads_or_says_why() {
    let attrs = vec![attribute("lat", "51.5"), attribute("lon", "east")];
    assert_eq!(find_attribute::<Coordinate>("lat", &attrs).unwrap().as_str(), "51.5");
    assert!(matches!(find_attribute::<Coordinate>("lon", &attrs), Err(ErrorReason::ParseFloat)));
    assert!(matches!(find_attribute::<Coordinate>("alt", &attrs), Err(ErrorReason::Missing)));
}

#[test]
fn identifiers_read() {
    assert_eq!(id_of("0").unwrap(), 0);
    assert_eq!(id_of("25496583").unwrap(), 25496583);
    assert_eq!(id_of("-25496583").unwrap(), -25496583);
    assert_eq!(id_of("+7").unwrap(), 7);
    assert_eq!(id_of("-0").unwrap(), 0);
    assert_eq!(id_of("007").unwrap(), 7);
    assert_eq!(id_of("9223372036854775807").unwrap(), i64::MAX);
    assert_eq!(id_of("-9223372036854775808").unwrap(), i64::MIN);
    assert_eq!(id_of("00000000000000000000000000000012").unwrap(), 12);
}

#[test]
fn identifiers_refused() {
    let bad = [
        "", "+", "-", " 1", "1 ", "1.0", "1e3", "--1", "+-1", "1-", "1_000", "0x10", "abc",
        "9223372036854775808", "-9223372036854775809", "99999999999999999999999", "١٢", "1\n",
    ];
    for text in bad {
        assert!(matches!(id_of(text), Err(ErrorReason::ParseInt(_))), "{:?}", text);
    }
    assert!(matches!(find_attribute::<i64>("id", &Vec::new()), Err(ErrorReason::Missing)));
}
