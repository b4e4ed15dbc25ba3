//! The protocol frame around an action's body, and the reading of the
//! answer.

use vstd::prelude::*;
use vstd::string::*;
use crate::display::DisplayAction;
use crate::error::SoapError;

verus! {

/// The element tree of the XML reader, `minidom::Element`, carried as it
/// came.
#[verifier::external_type_specification]
#[verifier::external_body]
pub struct ExElement(minidom::Element);

/// Whether the XML reader accepts `text` as one document: what
/// `str::parse::<minidom::Element>` decides of it.
pub uninterp spec fn document_parses(text: Seq<char>) -> bool;

/// Calls `str::parse::<minidom::Element>`, which reads one XML document
/// from the text and returns its root element, or the reader's error where
/// the text is no document or an element has no namespace. Whether it
/// succeeds depends on the text alone; nothing is claimed of the element
/// or of the error.
#[verifier::external_body]
fn parse_element(text: &str) -> (r: Result<minidom::Element, minidom::Error>)
    ensures
        r is Ok == document_parses(text@),
{
    text.parse::<minidom::Element>()
}

/// The frame of a message: the namespace of its actions, where it is sent,
/// and an optional header.
pub struct Envelope<H: DisplayAction> {
    pub action_url: String,
    pub dest_url: String,
    pub head: Option<H>,
}

/// The XML declaration and the opening of the envelope.
pub open spec fn prologue() -> Seq<char> {
    "<?xml version=\"1.0\" encoding=\"utf-8\"?><soap:Envelope xmlns:xsi=\"http://www.w3.org/2001/XMLSchema-instance\" xmlns:xsd=\"http://www.w3.org/2001/XMLSchema\" xmlns:soap=\"http://schemas.xmlsoap.org/soap/envelope/\">"@
}

/// The opening of the body and of the action element in its namespace.
pub open spec fn body_open(action: Seq<char>, action_url: Seq<char>) -> Seq<char> {
    "<soap:Body><"@ + action + " xmlns=\""@ + action_url + "\">"@
}

/// The closing of the action element, of the body and of the envelope.
pub open spec fn body_close(action: Seq<char>) -> Seq<char> {
    "</"@ + action + "></soap:Body></soap:Envelope>"@
}

/// What is to be sent for one action.
#[derive(Debug)]
pub struct Request {
    /// Where the request goes.
    pub url: String,
    /// The value of the `Content-Type` header.
    pub content_type: String,
    /// The value of the `SOAPAction` header.
    pub soap_action: String,
    /// The framed message.
    pub body: String,
}

impl<H: DisplayAction> Envelope<H> {
    /// A frame with these parts.
    pub fn new(action_url: String, dest_url: String, head: Option<H>) -> (r: Self)
        ensures
            r.action_url == action_url,
            r.dest_url == dest_url,
            r.head == head,
    {
        Envelope { action_url, dest_url, head }
    }

    /// Whether there is no header, or the header's type states what it
    /// writes.
    pub open spec fn head_obeys(&self) -> bool {
        self.head is None || H::obeys_display_spec()
    }

    /// Whether the header, if there is one, can be written.
    pub open spec fn head_writable(&self) -> bool {
        match self.head {
            Some(h) => h.writable(self.action_url@),
            None => true,
        }
    }

    /// The header section: none without a header; else the header, written
    /// under the namespace of the actions, between the header tags.
    pub open spec fn head_text(&self) -> Seq<char> {
        match self.head {
            Some(h) => "<soap:Header>"@ + h.action_text(self.action_url@) + "</soap:Header>"@,
            None => Seq::empty(),
        }
    }

    /// The framed message of the action `action` with the body `body`.
    pub open spec fn envelope_text<D: DisplayAction>(&self, action: Seq<char>, body: D) -> Seq<char> {
        prologue() + self.head_text() + body_open(action, self.action_url@) + body.action_text(""@)
            + body_close(action)
    }

    /// Appends the framed message of the action `action` with the body
    /// `body`. It fails where the header or the body cannot be written.
    /// Whether it fails and what is appended is stated where the types of
    /// the header, if there is one, and of the body state what they write.
    pub fn fmt<D: DisplayAction>(&self, fmt: &mut String, action: &str, body: D) -> (r: Result<
        (),
        std::fmt::Error,
    >)
        ensures
            self.head_obeys() && D::obeys_display_spec() ==> r is Ok == (self.head_writable()
                && body.writable(""@)),
            self.head_obeys() && D::obeys_display_spec() && r is Ok ==> final(fmt)@ == old(fmt)@
                + self.envelope_text(action@, body),
    {
        let ghost start = fmt@;
        fmt.append(
            "<?xml version=\"1.0\" encoding=\"utf-8\"?><soap:Envelope xmlns:xsi=\"http://www.w3.org/2001/XMLSchema-instance\" xmlns:xsd=\"http://www.w3.org/2001/XMLSchema\" xmlns:soap=\"http://schemas.xmlsoap.org/soap/envelope/\">",
        );
        match &self.head {
            Some(h) => {
                fmt.append("<soap:Header>");
                match h.fmt(fmt, self.action_url.as_str()) {
                    Ok(()) => {},
                    Err(e) => {
                        return Err(e);
                    },
                }
                fmt.append("</soap:Header>");
            },
            None => {},
        }
        assert(self.head_obeys() ==> fmt@ =~= start + (prologue() + self.head_text()));
        fmt.append("<soap:Body><");
        fmt.append(action);
        fmt.append(" xmlns=\"");
        fmt.append(self.action_url.as_str());
        fmt.append("\">");
        assert(self.head_obeys() ==> fmt@ =~= start + (prologue() + self.head_text() + body_open(
            action@,
            self.action_url@,
        )));
        match body.fmt(fmt, "") {
            Ok(()) => {},
            Err(e) => {
                return Err(e);
            },
        }
        fmt.append("</");
        fmt.append(action);
        fmt.append("></soap:Body></soap:Envelope>");
        assert(self.head_obeys() && D::obeys_display_spec() ==> fmt@ =~= start
            + self.envelope_text(action@, body));
        Ok(())
    }

    /// What is to be sent for the action `action` with the body `body`: the
    /// framed message, where it goes, and the two headers. It fails, with
    /// the sink's error, where the header or the body cannot be written.
    /// Whether it fails and what the framed message is is stated where the
    /// types of the header, if there is one, and of the body state what
    /// they write.
    pub fn request<D: DisplayAction>(&self, action: &str, body: D) -> (r: Result<Request, SoapError>)
        ensures
            self.head_obeys() && D::obeys_display_spec() ==> r is Ok == (self.head_writable()
                && body.writable(""@)),
            r is Err ==> r->Err_0 is FmtError,
            r is Ok ==> {
                &&& r->Ok_0.url@ == self.dest_url@
                &&& r->Ok_0.content_type@ == "text/xml; charset=utf-8"@
                &&& r->Ok_0.soap_action@ == self.action_url@ + action@
                &&& self.head_obeys() && D::obeys_display_spec() ==> r->Ok_0.body@
                    == self.envelope_text(action@, body)
            },
    {
        let mut text = String::new();
        match self.fmt(&mut text, action, body) {
            Ok(()) => {
                let mut soap_action = self.action_url.clone();
                soap_action.append(action);
                assert(self.head_obeys() && D::obeys_display_spec() ==> text@ =~= self.envelope_text(
                    action@,
                    body,
                ));
                Ok(
                    Request {
                        url: self.dest_url.clone(),
                        content_type: "text/xml; charset=utf-8".to_string(),
                        soap_action,
                        body: text,
                    },
                )
            },
            Err(e) => Err(SoapError::FmtError(e)),
        }
    }

    /// What the caller gets for the outcome `parsed` of reading an answer:
    /// the element tree with the namespace of the actions, or the reader's
    /// error.
    pub fn response_of(&self, parsed: Result<minidom::Element, minidom::Error>) -> (r: Result<
        (minidom::Element, String),
        SoapError,
    >)
        ensures
            match parsed {
                Ok(root) => r is Ok && r->Ok_0.0 == root && r->Ok_0.1@ == self.action_url@,
                Err(e) => r == Err::<(minidom::Element, String), SoapError>(SoapError::MiniDomError(e)),
            },
    {
        match parsed {
            Ok(root) => Ok((root, self.action_url.clone())),
            Err(e) => Err(SoapError::MiniDomError(e)),
        }
    }

    /// Reads the answer `text` as one XML document. Exactly where the
    /// reader accepts it, the result is its element tree with the namespace
    /// of the actions; else the reader's error.
    pub fn response(&self, text: &str) -> (r: Result<(minidom::Element, String), SoapError>)
        ensures
            r is Ok == document_parses(text@),
            r is Ok ==> r->Ok_0.1@ == self.action_url@,
            r is Err ==> r->Err_0 is MiniDomError,
    {
        self.response_of(parse_element(text))
    }
}

} // verus!
