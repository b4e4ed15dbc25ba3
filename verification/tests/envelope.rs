use soap_rs::{
    impl_display_action, Attr, Data, DisplayAction, Envelope, Field, Group, Message, SoapError,
    Value,
};

const PROLOGUE: &str = "<?xml version=\"1.0\" encoding=\"utf-8\"?><soap:Envelope xmlns:xsi=\"http://www.w3.org/2001/XMLSchema-instance\" xmlns:xsd=\"http://www.w3.org/2001/XMLSchema\" xmlns:soap=\"http://schemas.xmlsoap.org/soap/envelope/\">";

fn envelope(head: Option<String>) -> Envelope<String> {
    Envelope::new("http://example.org/ns/".to_string(), "http://example.org/service".to_string(), head)
}

#[test]
fn new_keeps_its_parts() {
    let e = envelope(Some("h".to_string()));
    assert_eq!(e.action_url, "http://example.org/ns/");
    assert_eq!(e.dest_url, "http://example.org/service");
    assert_eq!(e.head, Some("h".to_string()));
}

#[test]
fn envelope_without_header() {
    let mut out = String::new();
    assert!(envelope(None).fmt(&mut out, "Ping", ()).is_ok());
    assert_eq!(
        out,
        format!(
            "{}<soap:Body><Ping xmlns=\"http://example.org/ns/\"></Ping></soap:Body></soap:Envelope>",
            PROLOGUE
        )
    );
}

#[test]
fn envelope_with_header_and_body() {
    let mut out = String::from("> ");
    assert!(envelope(Some("token".to_string())).fmt(&mut out, "Get", "x").is_ok());
    assert_eq!(
        out,
        format!(
            "> {}<soap:Header><http://example.org/ns/>token</http://example.org/ns/></soap:Header><soap:Body><Get xmlns=\"http://example.org/ns/\"><>x</></Get></soap:Body></soap:Envelope>",
            PROLOGUE
        )
    );
}

#[test]
fn envelope_around_a_record() {
    let data = Data {
        attrs: vec![Attr::Group(Group::named("Request".to_string()))],
        ident: "GetUser".to_string(),
        fields: vec![
            Field::from_attrs("id".to_string(), false, &vec![]),
            Field::from_attrs(
                "name".to_string(),
                false,
                &vec![Attr::Group(Group::named("Info".to_string()))],
            ),
        ],
    };
    let action = impl_display_action(data).expect("the groups nest");
    let message =
        Message::new(
        &action,
        vec![Some(Value::Text("5".to_string())), Some(Value::Text("Bob".to_string()))],
    )
    .expect("two values");
    let request = envelope(None).request("GetUser", message).expect("a string sink takes all");
    assert_eq!(request.url, "http://example.org/service");
    assert_eq!(request.content_type, "text/xml; charset=utf-8");
    assert_eq!(request.soap_action, "http://example.org/ns/GetUser");
    assert_eq!(
        request.body,
        format!(
            "{}<soap:Body><GetUser xmlns=\"http://example.org/ns/\"><Request><id>5</id><Info><name>Bob</name></Info></Request></GetUser></soap:Body></soap:Envelope>",
            PROLOGUE
        )
    );
}

#[test]
fn values_write_themselves() {
    let mut out = String::new();
    assert!(().fmt(&mut out, "unit").is_ok());
    assert_eq!(out, "");
    assert!("text".fmt(&mut out, "a").is_ok());
    assert_eq!(out, "<a>text</a>");
    assert!("owned".to_string().fmt(&mut out, "b").is_ok());
    assert_eq!(out, "<a>text</a><b>owned</b>");
    let absent: Option<String> = None;
    assert!(absent.fmt(&mut out, "c").is_ok());
    assert_eq!(out, "<a>text</a><b>owned</b>");
    assert!(Some("given").fmt(&mut out, "d").is_ok());
    assert_eq!(out, "<a>text</a><b>owned</b><d>given</d>");
}

#[test]
fn response_reads_a_document() {
    let (root, url) = envelope(None)
        .response("<Answer xmlns=\"urn:x\"><Value>7</Value></Answer>")
        .expect("a well-formed document");
    assert_eq!(root.name(), "Answer");
    assert_eq!(root.ns(), "urn:x");
    assert_eq!(root.children().count(), 1);
    assert_eq!(root.children().next().expect("one child").text(), "7");
    assert_eq!(url, "http://example.org/ns/");
}

#[test]
fn response_reports_the_reader_error() {
    let err = envelope(None).response("<Answer xmlns=\"urn:x\"><Value>").expect_err("cut short");
    assert!(matches!(err, SoapError::MiniDomError(_)));
    let err = envelope(None).response("<Answer/>").expect_err("no namespace");
    assert!(matches!(err, SoapError::MiniDomError(minidom::Error::MissingNamespace)));
    let err = envelope(None).response("").expect_err("nothing to read");
    assert!(matches!(err, SoapError::MiniDomError(_)));
}

#[test]
fn errors_convert_into_the_library_error() {
    let from_sink: SoapError = std::fmt::Error.into();
    assert!(matches!(from_sink, SoapError::FmtError(_)));
    let from_reader: SoapError = minidom::Error::EndOfDocument.into();
    assert!(matches!(from_reader, SoapError::MiniDomError(minidom::Error::EndOfDocument)));
}

#[test]
fn integers_write_their_decimal_digits() {
    let mut out = String::new();
    assert!(5u32.fmt(&mut out, "id").is_ok());
    assert_eq!(out, "<id>5</id>");
    let mut out = String::new();
    assert!(0u8.fmt(&mut out, "z").is_ok());
    assert!(1234567890usize.fmt(&mut out, "n").is_ok());
    assert!(u128::MAX.fmt(&mut out, "m").is_ok());
    assert!(65535u16.fmt(&mut out, "w").is_ok());
    assert!(18446744073709551615u64.fmt(&mut out, "q").is_ok());
    assert_eq!(
        out,
        "<z>0</z><n>1234567890</n><m>340282366920938463463374607431768211455</m><w>65535</w><q>18446744073709551615</q>"
    );
}

#[test]
fn negative_integers_write_a_sign() {
    let mut out = String::new();
    assert!((-42i32).fmt(&mut out, "a").is_ok());
    assert!(i128::MIN.fmt(&mut out, "b").is_ok());
    assert!(0i64.fmt(&mut out, "c").is_ok());
    assert!(i8::MIN.fmt(&mut out, "d").is_ok());
    assert!(7i16.fmt(&mut out, "e").is_ok());
    assert!((-1isize).fmt(&mut out, "f").is_ok());
    assert_eq!(
        out,
        "<a>-42</a><b>-170141183460469231731687303715884105728</b><c>0</c><d>-128</d><e>7</e><f>-1</f>"
    );
}

#[test]
fn character_writes_itself() {
    let mut out = String::new();
    assert!('x'.fmt(&mut out, "c").is_ok());
    assert!('\u{e9}'.fmt(&mut out, "d").is_ok());
    assert_eq!(out, "<c>x</c><d>\u{e9}</d>");
}

#[test]
fn header_and_body_of_a_request_may_be_numbers() {
    let e: Envelope<u64> = Envelope::new("ns".to_string(), "dest".to_string(), Some(9));
    let request = e.request("Act", Some(-3i32)).expect("a string sink takes all");
    assert_eq!(request.soap_action, "nsAct");
    assert!(request.body.ends_with(
        "<soap:Header><ns>9</ns></soap:Header><soap:Body><Act xmlns=\"ns\"><>-3</></Act></soap:Body></soap:Envelope>"
    ));
}

struct Refusing;

impl DisplayAction for Refusing {
    fn fmt(&self, _: &mut String, _: &str) -> Result<(), std::fmt::Error> {
        Err(std::fmt::Error)
    }
}

#[test]
fn failure_of_header_or_body_is_handed_on() {
    let mut out = String::new();
    assert!(envelope(None).fmt(&mut out, "Act", Refusing).is_err());
    let with_head: Envelope<Refusing> =
        Envelope::new("ns".to_string(), "dest".to_string(), Some(Refusing));
    let mut out = String::new();
    assert!(with_head.fmt(&mut out, "Act", ()).is_err());
    let err = with_head.request("Act", ()).expect_err("the header refuses");
    assert!(matches!(err, SoapError::FmtError(_)));
    let absent: Option<Refusing> = None;
    let mut out = String::new();
    assert!(absent.fmt(&mut out, "x").is_ok());
    assert!(Some(Refusing).fmt(&mut out, "x").is_err());
}
