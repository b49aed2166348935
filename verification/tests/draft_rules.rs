use proxy_m365_write::draft::{valid_email, Body, Draft, DraftError, EmailAddress, Recipient};

fn recipient(address: &str, name: Option<&str>) -> Recipient {
    Recipient {
        email_address: EmailAddress {
            address: address.to_string(),
            name: name.map(|n| n.to_string()),
        },
    }
}

fn draft(subject: &str, content_type: &str, content: &str) -> Draft {
    Draft {
        subject: subject.to_string(),
        body: Body {
            content_type: content_type.to_string(),
            content: content.to_string(),
        },
        to_recipients: Vec::new(),
        cc_recipients: Vec::new(),
    }
}

fn error_of(d: &Draft) -> Option<DraftError> {
    match d.validate() {
        Ok(()) => None,
        Err(e) => Some(e),
    }
}

#[test]
fn accepts_a_minimal_draft() {
    // {"subject":"Test","body":{"contentType":"Text","content":"Hello"}}
    let d = draft("Test", "Text", "Hello");
    assert!(d.validate().is_ok());
}

#[test]
fn rejects_an_invalid_recipient_address() {
    // {"subject":"Test","body":{...},"toRecipients":[{"emailAddress":{"address":"not-an-email"}}]}
    let mut d = draft("Test", "Text", "Hello");
    d.to_recipients.push(recipient("not-an-email", None));
    assert!(error_of(&d) == Some(DraftError::InvalidAddress));
}

#[test]
fn accepts_html_and_recipients_with_names() {
    let mut d = draft("Review me", "HTML", "<p>Safe draft</p>");
    d.to_recipients.push(recipient("alice@example.com", Some("Alice")));
    d.cc_recipients.push(recipient(" bob@example.org ", None));
    assert!(d.validate().is_ok());
}

#[test]
fn subject_is_counted_after_trimming() {
    assert!(error_of(&draft("   ", "Text", "x")) == Some(DraftError::SubjectLength));
    assert!(error_of(&draft("", "Text", "x")) == Some(DraftError::SubjectLength));
    let exactly_200 = format!("  {}  ", "é".repeat(200));
    assert!(draft(&exactly_200, "Text", "x").validate().is_ok());
    let too_long = "s".repeat(201);
    assert!(error_of(&draft(&too_long, "Text", "x")) == Some(DraftError::SubjectLength));
}

#[test]
fn content_type_must_be_text_or_html() {
    assert!(error_of(&draft("Hi", "text", "x")) == Some(DraftError::BodyContentType));
    assert!(error_of(&draft("Hi", "Markdown", "x")) == Some(DraftError::BodyContentType));
}

#[test]
fn body_content_is_limited_in_characters() {
    let ok = "ü".repeat(10_000);
    assert!(draft("Hi", "Text", &ok).validate().is_ok());
    let too_long = "a".repeat(10_001);
    assert!(error_of(&draft("Hi", "Text", &too_long)) == Some(DraftError::BodyTooLong));
}

#[test]
fn at_most_ten_recipients() {
    let mut d = draft("Hi", "Text", "x");
    for i in 0..6 {
        d.to_recipients.push(recipient(&format!("to{i}@example.com"), None));
    }
    for i in 0..4 {
        d.cc_recipients.push(recipient(&format!("cc{i}@example.com"), None));
    }
    assert!(d.validate().is_ok());
    d.cc_recipients.push(recipient("one-more@example.com", None));
    assert!(error_of(&d) == Some(DraftError::TooManyRecipients));
}

#[test]
fn recipient_names_are_limited() {
    let mut d = draft("Hi", "Text", "x");
    d.cc_recipients.push(recipient("a@b.co", Some(&"n".repeat(200))));
    assert!(d.validate().is_ok());
    d.cc_recipients.push(recipient("c@d.co", Some(&"n".repeat(201))));
    assert!(error_of(&d) == Some(DraftError::NameTooLong));
}

#[test]
fn first_failing_recipient_decides() {
    let mut d = draft("Hi", "Text", "x");
    d.to_recipients.push(recipient("a@b.co", Some(&"n".repeat(201))));
    d.cc_recipients.push(recipient("broken", None));
    assert!(error_of(&d) == Some(DraftError::NameTooLong));
    let mut e = draft("Hi", "Text", "x");
    e.to_recipients.push(recipient("broken", Some(&"n".repeat(201))));
    assert!(error_of(&e) == Some(DraftError::InvalidAddress));
}

#[test]
fn subject_is_checked_before_recipients() {
    let mut d = draft("", "Markdown", "x");
    d.to_recipients.push(recipient("broken", None));
    assert!(error_of(&d) == Some(DraftError::SubjectLength));
}

#[test]
fn error_messages() {
    assert_eq!(DraftError::SubjectLength.message(), "subject must contain 1 to 200 characters");
    assert_eq!(DraftError::BodyContentType.message(), "body.contentType must be Text or HTML");
    assert_eq!(DraftError::BodyTooLong.message(), "body content exceeds 10000 characters");
    assert_eq!(DraftError::TooManyRecipients.message(), "draft exceeds 10 recipients");
    assert_eq!(DraftError::InvalidAddress.message(), "recipient contains an invalid email address");
    assert_eq!(DraftError::NameTooLong.message(), "recipient name exceeds 200 characters");
}

#[test]
fn email_addresses() {
    assert!(valid_email("a@b.c"));
    assert!(valid_email("  user.name@example.co.uk\t"));
    assert!(valid_email("a@b@c.d"));
    assert!(!valid_email("not-an-email"));
    assert!(!valid_email("@example.com"));
    assert!(!valid_email("a@example"));
    assert!(!valid_email("a@.example.com"));
    assert!(!valid_email("a@example.com."));
    assert!(!valid_email("a b@example.com"));
    assert!(!valid_email("a@exa\u{00a0}mple.com"));
    assert!(!valid_email(""));
}

#[test]
fn email_length_is_counted_in_bytes() {
    let local_250 = "a".repeat(250);
    assert!(valid_email(&format!("{local_250}@b.c")));
    let local_251 = "a".repeat(251);
    assert!(!valid_email(&format!("{local_251}@b.c")));
    // 125 two-byte characters: 250 bytes, so 254 in all.
    let wide = "é".repeat(125);
    assert!(valid_email(&format!("{wide}@b.c")));
    let wider = "é".repeat(126);
    assert!(!valid_email(&format!("{wider}@b.c")));
}
