//! CardDAV responses: the multistatus XML documents a server sends back, read
//! into principals, address-book homes, address books and contacts.
use vstd::prelude::*;
use crate::text;
use crate::vcard;
use quick_xml::events::Event::{Empty, End, Eof, Start, Text};
use quick_xml::name::QName;
use quick_xml::Reader;

verus! {

broadcast use vstd::string::group_string_axioms;

/// Errors of the mail and contacts backends.
pub enum HimalayaError {
    AccountNotFound(String),
    Backend(String),
    Config(String),
    Network(String),
    Parse(String),
}


impl HimalayaError {
    /// The kind of the error and its message.
    pub open spec fn parts(self) -> (int, Seq<char>) {
        match self {
            HimalayaError::AccountNotFound(m) => (0, m@),
            HimalayaError::Backend(m) => (1, m@),
            HimalayaError::Config(m) => (2, m@),
            HimalayaError::Network(m) => (3, m@),
            HimalayaError::Parse(m) => (4, m@),
        }
    }
}

// ── XML events ──────────────────────────────────────────────────────────────

/// One event of an XML reader: element names as text, text already
/// unescaped (empty where unescaping failed).
pub enum XmlEvent {
    Start(String),
    Empty(String),
    End(String),
    Text(String),
    Error(String),
    Other,
}

/// An XML event, as character sequences.
pub enum XmlEventView {
    Start(Seq<char>),
    Empty(Seq<char>),
    End(Seq<char>),
    Text(Seq<char>),
    Error(Seq<char>),
    Other,
}

impl View for XmlEvent {
    type V = XmlEventView;

    open spec fn view(&self) -> XmlEventView {
        match self {
            XmlEvent::Start(n) => XmlEventView::Start(n@),
            XmlEvent::Empty(n) => XmlEventView::Empty(n@),
            XmlEvent::End(n) => XmlEventView::End(n@),
            XmlEvent::Text(t) => XmlEventView::Text(t@),
            XmlEvent::Error(e) => XmlEventView::Error(e@),
            XmlEvent::Other => XmlEventView::Other,
        }
    }
}

/// The views of a list of events.
pub open spec fn event_views(v: Seq<XmlEvent>) -> Seq<XmlEventView> {
    v.map_values(|e: XmlEvent| e@)
}

/// The events a text-trimming `quick_xml` reader gives for a document, one
/// per call, up to the end of input.
pub uninterp spec fn xml_event_seq(xml: Seq<char>) -> Seq<XmlEventView>;

/// `quick_xml::Reader::read_event` on a reader over `xml` that trims text,
/// called until it reports the end of input (after which it reports nothing
/// else). The contract claims the events are those of the document, named
/// `xml_event_seq`; the XML grammar is not restated.
#[verifier::external_body]
fn xml_events(xml: &str) -> (r: Vec<XmlEvent>)
    ensures
        event_views(r@) == xml_event_seq(xml@),
{
    let mut reader = Reader::from_str(xml);
    reader.config_mut().trim_text(true);
    let name = |n: QName| String::from_utf8_lossy(n.0).into_owned();
    let mut out = Vec::new();
    loop {
        out.push(match reader.read_event() {
            Ok(Start(e)) => XmlEvent::Start(name(e.name())),
            Ok(Empty(e)) => XmlEvent::Empty(name(e.name())),
            Ok(End(e)) => XmlEvent::End(name(e.name())),
            Ok(Text(t)) => XmlEvent::Text(t.unescape().unwrap_or_default().into()),
            Ok(Eof) => return out,
            Ok(_) => XmlEvent::Other,
            Err(e) => XmlEvent::Error(e.to_string()),
        });
    }
}

// ── URLs ────────────────────────────────────────────────────────────────────

/// What `url::Url::parse` gives for a URL: its scheme and host, or the text
/// of the parse error.
pub uninterp spec fn url_parse(url: Seq<char>) -> Result<(Seq<char>, Option<Seq<char>>), Seq<char>>;

/// The view of a parsed URL.
pub open spec fn url_view(r: Result<(String, Option<String>), String>) -> Result<(Seq<char>, Option<Seq<char>>), Seq<char>> {
    match r {
        Ok((s, h)) => Ok((s@, text::opt_view(h))),
        Err(e) => Err(e@),
    }
}

/// `url::Url::parse`, keeping the scheme and host. The contract claims the
/// outcome is the one named `url_parse`; URL syntax is not restated.
#[verifier::external_body]
fn parse_url(url: &str) -> (r: Result<(String, Option<String>), String>)
    ensures
        url_view(r) == url_parse(url@),
{
    match url::Url::parse(url) {
        Ok(u) => Ok((u.scheme().to_string(), u.host_str().map(|h| h.to_string()))),
        Err(e) => Err(e.to_string()),
    }
}

/// An optional value, or nothing.
pub open spec fn or_empty(o: Option<Seq<char>>) -> Seq<char> {
    match o {
        Some(v) => v,
        None => Seq::empty(),
    }
}

/// `scheme://host` followed by an absolute path.
pub open spec fn with_origin(scheme: Seq<char>, host: Option<Seq<char>>, path: Seq<char>) -> Seq<char> {
    scheme + "://"@ + or_empty(host) + path
}

/// The href a server gave, made absolute against `base`: a path starting
/// with `/` gets the scheme and host of `base` (an error if `base` is not a
/// URL), an href starting with `http` stays, and anything else is appended
/// to `base` after a `/`.
pub open spec fn resolve_href(h: Seq<char>, base: Seq<char>) -> Result<Seq<char>, Seq<char>> {
    if text::starts_with(h, "/"@) {
        match url_parse(base) {
            Ok((scheme, host)) => Ok(with_origin(scheme, host, h)),
            Err(e) => Err(e),
        }
    } else if text::starts_with(h, "http"@) {
        Ok(h)
    } else {
        Ok(text::trim_end_char(base, '/') + "/"@ + h)
    }
}

/// `scheme://host` of a parsed URL followed by `path`.
fn origin_exec(scheme: &String, host: &Option<String>, path: &[char]) -> (r: Vec<char>)
    ensures
        r@ == with_origin(scheme@, text::opt_view(*host), path@),
{
    let mut r = text::string_chars(scheme);
    let sep = text::str_chars("://");
    text::append_chars(&mut r, sep.as_slice());
    match host {
        Some(h) => {
            let hv = text::string_chars(h);
            text::append_chars(&mut r, hv.as_slice());
        },
        None => {},
    }
    text::append_chars(&mut r, path);
    assert(r@ =~= with_origin(scheme@, text::opt_view(*host), path@));
    r
}

/// Makes an href absolute against `base` (see [`resolve_href`]).
fn resolve_href_exec(h: &[char], base: &str) -> (r: Result<Vec<char>, String>)
    ensures
        match r {
            Ok(v) => resolve_href(h@, base@) == Ok::<Seq<char>, Seq<char>>(v@),
            Err(e) => resolve_href(h@, base@) == Err::<Seq<char>, Seq<char>>(e@),
        },
{
    if text::starts_with_lit(h, "/") {
        let u = parse_url(base);
        match u {
            Ok((scheme, host)) => {
                assert(url_parse(base@) == Ok::<(Seq<char>, Option<Seq<char>>), Seq<char>>((scheme@, text::opt_view(host))));
                Ok(origin_exec(&scheme, &host, h))
            },
            Err(e) => Err(e),
        }
    } else if text::starts_with_lit(h, "http") {
        let v = text::slice_to_vec(h, 0, h.len());
        assert(v@ =~= h@);
        Ok(v)
    } else {
        let bv = text::str_chars(base);
        let mut r = text::trim_end_char_exec(bv.as_slice(), '/');
        let slash = text::str_chars("/");
        text::append_chars(&mut r, slash.as_slice());
        text::append_chars(&mut r, h);
        proof { reveal_strlit("/"); }
        assert(r@ =~= text::trim_end_char(base@, '/') + "/"@ + h@);
        Ok(r)
    }
}

// ── Principal and address-book home ─────────────────────────────────────────

/// Reading the events from `i` on, looking for the first text of an `href`
/// inside an element whose name contains `tag`: `inside` says whether the
/// reader is in such an element, `href` is what was found so far. An
/// element start (or empty element) named like `tag` opens the section; an
/// `href` start inside it takes the next event's text, if that event is
/// text; text inside the section is taken when nothing was found yet and it
/// is not blank; an end named like `tag` closes the section; an error stops
/// the reading with its message.
pub open spec fn section_href(ev: Seq<XmlEventView>, i: int, tag: Seq<char>, inside: bool, href: Option<Seq<char>>) -> Result<Option<Seq<char>>, Seq<char>>
    decreases ev.len() - i, 1int,
{
    if i < 0 || i >= ev.len() {
        Ok(href)
    } else {
        match ev[i] {
            XmlEventView::Error(e) => Err(e),
            XmlEventView::Start(n) => section_open(ev, i, tag, inside, href, n),
            XmlEventView::Empty(n) => section_open(ev, i, tag, inside, href, n),
            XmlEventView::Text(t) => if inside && href is None && text::trim(t).len() > 0 {
                section_href(ev, i + 1, tag, inside, Some(t))
            } else {
                section_href(ev, i + 1, tag, inside, href)
            },
            XmlEventView::End(n) => if text::contains(n, tag) {
                section_href(ev, i + 1, tag, false, href)
            } else {
                section_href(ev, i + 1, tag, inside, href)
            },
            XmlEventView::Other => section_href(ev, i + 1, tag, inside, href),
        }
    }
}

/// The step of [`section_href`] at an element start named `n`.
pub open spec fn section_open(ev: Seq<XmlEventView>, i: int, tag: Seq<char>, inside: bool, href: Option<Seq<char>>, n: Seq<char>) -> Result<Option<Seq<char>>, Seq<char>>
    decreases ev.len() - i, 0int,
{
    if 0 <= i < ev.len() {
        if text::contains(n, tag) {
            section_href(ev, i + 1, tag, true, href)
        } else if inside && text::contains(n, "href"@) {
            if i + 1 < ev.len() {
                let next = if ev[i + 1] is Text { Some(ev[i + 1]->Text_0) } else { href };
                section_href(ev, i + 2, tag, inside, next)
            } else {
                section_href(ev, i + 1, tag, inside, href)
            }
        } else {
            section_href(ev, i + 1, tag, inside, href)
        }
    } else {
        Ok(href)
    }
}


/// The step at an element start named `nc`, in the reading of a section.
fn section_open_exec(events: &[XmlEvent], i: usize, tag: &str, inside: &mut bool, href: &mut Option<String>, nc: &[char]) -> (next: usize)
    requires
        i < events@.len(),
        event_views(events@)[i as int] is Start || event_views(events@)[i as int] is Empty,
    ensures
        i < next <= events@.len(),
        section_open(event_views(events@), i as int, tag@, *old(inside), text::opt_view(*old(href)), nc@)
            == section_href(event_views(events@), next as int, tag@, *final(inside), text::opt_view(*final(href))),
{
    let ghost ev = event_views(events@);
    let n: usize = events.len();
    assert(i < n);
    if text::contains_lit(nc, tag) {
        *inside = true;
        i + 1
    } else if *inside && text::contains_lit(nc, "href") {
        if i + 1 < events.len() {
            match &events[i + 1] {
                XmlEvent::Text(t) => {
                    assert(ev[i + 1] == XmlEventView::Text(t@));
                    *href = Some(t.clone());
                },
                _ => {
                    assert(!(ev[i + 1] is Text));
                },
            }
            i + 2
        } else {
            i + 1
        }
    } else {
        i + 1
    }
}

/// Reads a section's href from the events (see [`section_href`]).
fn section_href_exec(events: &[XmlEvent], tag: &str) -> (r: Result<Option<String>, String>)
    ensures
        match r {
            Ok(h) => section_href(event_views(events@), 0, tag@, false, None) == Ok::<Option<Seq<char>>, Seq<char>>(text::opt_view(h)),
            Err(e) => section_href(event_views(events@), 0, tag@, false, None) == Err::<Option<Seq<char>>, Seq<char>>(e@),
        },
{
    let ghost ev = event_views(events@);
    let mut inside = false;
    let mut href: Option<String> = None;
    let mut i: usize = 0;
    while i < events.len()
        invariant
            i <= events@.len(),
            ev == event_views(events@),
            section_href(ev, 0, tag@, false, None) == section_href(ev, i as int, tag@, inside, text::opt_view(href)),
        decreases events@.len() - i,
    {
        match &events[i] {
            XmlEvent::Error(e) => {
                assert(ev[i as int] == XmlEventView::Error(e@));
                return Err(e.clone());
            },
            XmlEvent::Start(n) => {
                assert(ev[i as int] == XmlEventView::Start(n@));
                let nc = text::string_chars(n);
                i = section_open_exec(events, i, tag, &mut inside, &mut href, nc.as_slice());
            },
            XmlEvent::Empty(n) => {
                assert(ev[i as int] == XmlEventView::Empty(n@));
                let nc = text::string_chars(n);
                i = section_open_exec(events, i, tag, &mut inside, &mut href, nc.as_slice());
            },
            XmlEvent::Text(t) => {
                assert(ev[i as int] == XmlEventView::Text(t@));
                if inside && href.is_none() {
                    let tc = text::string_chars(t);
                    let trimmed = text::trim_chars(tc.as_slice());
                    if trimmed.len() > 0 {
                        href = Some(t.clone());
                    }
                }
                i += 1;
            },
            XmlEvent::End(n) => {
                assert(ev[i as int] == XmlEventView::End(n@));
                let nc = text::string_chars(n);
                if text::contains_lit(nc.as_slice(), tag) {
                    inside = false;
                }
                i += 1;
            },
            XmlEvent::Other => {
                assert(ev[i as int] == XmlEventView::Other);
                i += 1;
            },
        }
    }
    Ok(href)
}

/// What reading a section's href gives: the href made absolute, or `base`
/// when there is none; an XML error gives its message after `prefix`, and
/// a base that is not a URL gives the URL error.
pub open spec fn section_outcome(ev: Seq<XmlEventView>, tag: Seq<char>, prefix: Seq<char>, base: Seq<char>) -> Result<Seq<char>, Seq<char>> {
    match section_href(ev, 0, tag, false, None) {
        Err(e) => Err(prefix + e),
        Ok(None) => Ok(base),
        Ok(Some(h)) => resolve_href(h, base),
    }
}

/// The result as text, with the message of a parse error.
pub open spec fn parse_result_view(r: Result<String, HimalayaError>) -> Result<Seq<char>, Seq<char>> {
    match r {
        Ok(s) => Ok(s@),
        Err(e) => Err(e.parts().1),
    }
}

/// Reads a section's href and makes it absolute.
fn section_url(events: &[XmlEvent], tag: &str, prefix: &str, base_url: &str) -> (r: Result<String, HimalayaError>)
    ensures
        r matches Err(e) ==> e is Parse,
        parse_result_view(r) == section_outcome(event_views(events@), tag@, prefix@, base_url@),
{
    match section_href_exec(events, tag) {
        Err(e) => {
            let pv = text::str_chars(prefix);
            let ev = text::string_chars(&e);
            let mut m = pv;
            text::append_chars(&mut m, ev.as_slice());
            Err(HimalayaError::Parse(text::chars_to_string(m.as_slice())))
        },
        Ok(None) => Ok(base_url.to_string()),
        Ok(Some(h)) => {
            let hc = text::string_chars(&h);
            match resolve_href_exec(hc.as_slice(), base_url) {
                Ok(v) => Ok(text::chars_to_string(v.as_slice())),
                Err(e) => Err(HimalayaError::Parse(e)),
            }
        },
    }
}

/// The principal URL in the events of a `current-user-principal` response
/// (see [`section_outcome`]).
pub fn principal_from_events(events: &[XmlEvent], base_url: &str) -> (r: Result<String, HimalayaError>)
    ensures
        r matches Err(e) ==> e is Parse,
        parse_result_view(r) == section_outcome(event_views(events@), "current-user-principal"@, "Failed to parse principal XML: "@, base_url@),
{
    section_url(events, "current-user-principal", "Failed to parse principal XML: ", base_url)
}

/// The address-book home URL in the events of an `addressbook-home-set`
/// response (see [`section_outcome`]).
pub fn addressbook_home_from_events(events: &[XmlEvent], base_url: &str) -> (r: Result<String, HimalayaError>)
    ensures
        r matches Err(e) ==> e is Parse,
        parse_result_view(r) == section_outcome(event_views(events@), "addressbook-home-set"@, "Failed to parse addressbook home XML: "@, base_url@),
{
    section_url(events, "addressbook-home-set", "Failed to parse addressbook home XML: ", base_url)
}

/// Reads the principal URL from a PROPFIND response.
pub fn parse_principal_response(xml: &str, base_url: &str) -> (r: Result<String, HimalayaError>)
    ensures
        r matches Err(e) ==> e is Parse,
        parse_result_view(r) == section_outcome(xml_event_seq(xml@), "current-user-principal"@, "Failed to parse principal XML: "@, base_url@),
{
    let events = xml_events(xml);
    principal_from_events(events.as_slice(), base_url)
}

/// Reads the address-book home URL from a PROPFIND response.
pub fn parse_addressbook_home_response(xml: &str, base_url: &str) -> (r: Result<String, HimalayaError>)
    ensures
        r matches Err(e) ==> e is Parse,
        parse_result_view(r) == section_outcome(xml_event_seq(xml@), "addressbook-home-set"@, "Failed to parse addressbook home XML: "@, base_url@),
{
    let events = xml_events(xml);
    addressbook_home_from_events(events.as_slice(), base_url)
}


// ── Address books ───────────────────────────────────────────────────────────

/// An address book: its name, URL, description and contact count.
pub struct BookView {
    pub name: Seq<char>,
    pub href: Seq<char>,
    pub description: Option<Seq<char>>,
    pub contact_count: Option<u32>,
}

/// The view of an address book.
pub open spec fn book_view(b: vcard::AddressBook) -> BookView {
    BookView { name: b.name@, href: b.href@, description: text::opt_view(b.description), contact_count: b.contact_count }
}

/// The state of reading an address-book listing.
pub struct BooksState {
    pub books: Seq<BookView>,
    pub href: Option<Seq<char>>,
    pub name: Option<Seq<char>>,
    pub desc: Option<Seq<char>>,
    pub is_book: bool,
    pub in_response: bool,
    pub in_prop: bool,
}

/// The state before any event.
pub open spec fn books_start() -> BooksState {
    BooksState { books: Seq::empty(), href: None, name: None, desc: None, is_book: false, in_response: false, in_prop: false }
}

/// The href of an address book made absolute; a path starting with `/` stays
/// as it is when `base` is not a URL.
pub open spec fn book_href(h: Seq<char>, base: Seq<char>) -> Seq<char> {
    match resolve_href(h, base) {
        Ok(u) => u,
        Err(_) => h,
    }
}

/// Whether an element name is that of a `response` (and not `multistatus`).
pub open spec fn is_response(n: Seq<char>) -> bool {
    text::contains(n, "response"@) && !text::contains(n, "multistatus"@)
}

/// Whether an element name is that of a `prop` (and not `propstat`).
pub open spec fn is_prop(n: Seq<char>) -> bool {
    text::contains(n, "prop"@) && !text::contains(n, "propstat"@)
}

/// The text of the event after `i`, if it is a text event.
pub open spec fn next_text(ev: Seq<XmlEventView>, i: int) -> Option<Seq<char>> {
    if i + 1 < ev.len() && ev[i + 1] is Text {
        Some(ev[i + 1]->Text_0)
    } else {
        None
    }
}

/// The index after an element start at `i` whose next event is taken.
pub open spec fn after_taken(ev: Seq<XmlEventView>, i: int) -> int {
    if i + 1 < ev.len() { i + 2 } else { i + 1 }
}

/// Reading an address-book listing from event `i` on: each `response` with
/// an href and an empty `addressbook` element inside its `prop` gives an
/// address book named by its `displayname` (`Contacts` when there is none),
/// described by its `addressbook-description`, at its href made absolute.
/// The text of an `href`, `displayname` or `addressbook-description` is the
/// event right after its start, if that event is text. An error stops the
/// reading with its message.
pub open spec fn books_run(ev: Seq<XmlEventView>, base: Seq<char>, i: int, st: BooksState) -> Result<Seq<BookView>, Seq<char>>
    decreases ev.len() - i,
{
    if i < 0 || i >= ev.len() {
        Ok(st.books)
    } else {
        match ev[i] {
            XmlEventView::Error(e) => Err(e),
            XmlEventView::Start(n) => {
                if is_response(n) {
                    books_run(ev, base, i + 1, BooksState { in_response: true, href: None, name: None, desc: None, is_book: false, ..st })
                } else if is_prop(n) {
                    books_run(ev, base, i + 1, BooksState { in_prop: true, ..st })
                } else if st.in_response && text::contains(n, "href"@) && st.href is None {
                    books_run(ev, base, after_taken(ev, i), BooksState { href: if next_text(ev, i) is Some { next_text(ev, i) } else { st.href }, ..st })
                } else if st.in_prop && text::contains(n, "displayname"@) {
                    books_run(ev, base, after_taken(ev, i), BooksState { name: if next_text(ev, i) is Some { next_text(ev, i) } else { st.name }, ..st })
                } else if st.in_prop && text::contains(n, "addressbook-description"@) {
                    books_run(ev, base, after_taken(ev, i), BooksState { desc: if next_text(ev, i) is Some { next_text(ev, i) } else { st.desc }, ..st })
                } else {
                    books_run(ev, base, i + 1, st)
                }
            },
            XmlEventView::Empty(n) => {
                if st.in_prop && text::contains(n, "addressbook"@) && !text::contains(n, "description"@) && !text::contains(n, "home"@) {
                    books_run(ev, base, i + 1, BooksState { is_book: true, ..st })
                } else {
                    books_run(ev, base, i + 1, st)
                }
            },
            XmlEventView::End(n) => {
                if is_response(n) {
                    if st.is_book && st.href is Some {
                        let book = BookView {
                            name: if st.name is Some { st.name->0 } else { "Contacts"@ },
                            href: book_href(st.href->0, base),
                            description: st.desc,
                            contact_count: None,
                        };
                        books_run(ev, base, i + 1, BooksState { books: st.books.push(book), href: None, name: None, desc: None, in_response: false, ..st })
                    } else {
                        books_run(ev, base, i + 1, BooksState { in_response: false, ..st })
                    }
                } else if is_prop(n) {
                    books_run(ev, base, i + 1, BooksState { in_prop: false, ..st })
                } else {
                    books_run(ev, base, i + 1, st)
                }
            },
            _ => books_run(ev, base, i + 1, st),
        }
    }
}


/// What reading an address-book listing gives: the address books, or the
/// message of an XML error after `Failed to parse address books XML: `.
pub open spec fn books_outcome(ev: Seq<XmlEventView>, base: Seq<char>) -> Result<Seq<BookView>, Seq<char>> {
    match books_run(ev, base, 0, books_start()) {
        Ok(b) => Ok(b),
        Err(e) => Err("Failed to parse address books XML: "@ + e),
    }
}

/// The address books, or the message of the error.
pub open spec fn books_result_view(r: Result<Vec<vcard::AddressBook>, HimalayaError>) -> Result<Seq<BookView>, Seq<char>> {
    match r {
        Ok(b) => Ok(b@.map_values(|x: vcard::AddressBook| book_view(x))),
        Err(e) => Err(e.parts().1),
    }
}

/// The state of reading an address-book listing.
struct BooksReader {
    books: Vec<vcard::AddressBook>,
    href: Option<String>,
    name: Option<String>,
    desc: Option<String>,
    is_book: bool,
    in_response: bool,
    in_prop: bool,
}

impl BooksReader {
    spec fn state(&self) -> BooksState {
        BooksState {
            books: self.books@.map_values(|b: vcard::AddressBook| book_view(b)),
            href: text::opt_view(self.href),
            name: text::opt_view(self.name),
            desc: text::opt_view(self.desc),
            is_book: self.is_book,
            in_response: self.in_response,
            in_prop: self.in_prop,
        }
    }
}

/// The text of the event after `i`, if it is a text event.
fn next_text_exec(events: &[XmlEvent], i: usize) -> (r: Option<String>)
    requires
        i < events@.len(),
    ensures
        text::opt_view(r) == next_text(event_views(events@), i as int),
{
    let n: usize = events.len();
    if i + 1 < n {
        match &events[i + 1] {
            XmlEvent::Text(t) => {
                assert(event_views(events@)[i + 1] == XmlEventView::Text(t@));
                Some(t.clone())
            },
            _ => {
                assert(!(event_views(events@)[i + 1] is Text));
                None
            },
        }
    } else {
        None
    }
}

/// The index after an element start at `i` whose next event is taken.
fn after_taken_exec(events: &[XmlEvent], i: usize) -> (r: usize)
    requires
        i < events@.len(),
    ensures
        r == after_taken(event_views(events@), i as int),
{
    let n: usize = events.len();
    if i + 1 < n { i + 2 } else { i + 1 }
}

/// The step at an element start of an address-book listing.
fn books_start_step(events: &[XmlEvent], base: &str, i: usize, st: &mut BooksReader, nc: &[char]) -> (next: usize)
    requires
        i < events@.len(),
        event_views(events@)[i as int] == XmlEventView::Start(nc@),
    ensures
        i < next <= events@.len(),
        books_run(event_views(events@), base@, i as int, old(st).state())
            == books_run(event_views(events@), base@, next as int, final(st).state()),
{
    let n: usize = events.len();
    if text::contains_lit(nc, "response") && !text::contains_lit(nc, "multistatus") {
        st.in_response = true;
        st.href = None;
        st.name = None;
        st.desc = None;
        st.is_book = false;
        i + 1
    } else if text::contains_lit(nc, "prop") && !text::contains_lit(nc, "propstat") {
        st.in_prop = true;
        i + 1
    } else if st.in_response && text::contains_lit(nc, "href") && st.href.is_none() {
        let t = next_text_exec(events, i);
        if t.is_some() {
            st.href = t;
        }
        after_taken_exec(events, i)
    } else if st.in_prop && text::contains_lit(nc, "displayname") {
        let t = next_text_exec(events, i);
        if t.is_some() {
            st.name = t;
        }
        after_taken_exec(events, i)
    } else if st.in_prop && text::contains_lit(nc, "addressbook-description") {
        let t = next_text_exec(events, i);
        if t.is_some() {
            st.desc = t;
        }
        after_taken_exec(events, i)
    } else {
        i + 1
    }
}

/// The href of an address book made absolute (see [`book_href`]).
fn book_href_exec(h: &String, base: &str) -> (r: String)
    ensures
        r@ == book_href(h@, base@),
{
    let hc = text::string_chars(h);
    match resolve_href_exec(hc.as_slice(), base) {
        Ok(v) => text::chars_to_string(v.as_slice()),
        Err(_) => h.clone(),
    }
}

/// The step at an element end of an address-book listing.
fn books_end_step(events: &[XmlEvent], base: &str, i: usize, st: &mut BooksReader, nc: &[char])
    requires
        i < events@.len(),
        event_views(events@)[i as int] == XmlEventView::End(nc@),
    ensures
        books_run(event_views(events@), base@, i as int, old(st).state())
            == books_run(event_views(events@), base@, i + 1, final(st).state()),
{
    if text::contains_lit(nc, "response") && !text::contains_lit(nc, "multistatus") {
        if st.is_book && st.href.is_some() {
            let href = match &st.href {
                Some(h) => book_href_exec(h, base),
                None => String::new(),
            };
            let name = match &st.name {
                Some(n) => n.clone(),
                None => "Contacts".to_string(),
            };
            let book = vcard::AddressBook {
                name,
                href,
                description: text::copy_opt(&st.desc),
                contact_count: None,
            };
            let ghost bv = book_view(book);
            let ghost b0 = st.books@;
            st.books.push(book);
            assert(st.books@.map_values(|b: vcard::AddressBook| book_view(b)) =~= b0.map_values(|b: vcard::AddressBook| book_view(b)).push(bv));
            st.href = None;
            st.name = None;
            st.desc = None;
        }
        st.in_response = false;
    } else if text::contains_lit(nc, "prop") && !text::contains_lit(nc, "propstat") {
        st.in_prop = false;
    }
}

/// The address books in the events of a PROPFIND listing (see
/// [`books_outcome`]).
pub fn address_books_from_events(events: &[XmlEvent], base_url: &str) -> (r: Result<Vec<vcard::AddressBook>, HimalayaError>)
    ensures
        r matches Err(e) ==> e is Parse,
        books_result_view(r) == books_outcome(event_views(events@), base_url@),
{
    let ghost ev = event_views(events@);
    let mut st = BooksReader {
        books: Vec::new(),
        href: None,
        name: None,
        desc: None,
        is_book: false,
        in_response: false,
        in_prop: false,
    };
    assert(st.state() == books_start()) by {
        assert(st.books@.map_values(|b: vcard::AddressBook| book_view(b)) =~= Seq::<BookView>::empty());
    }
    let mut i: usize = 0;
    while i < events.len()
        invariant
            i <= events@.len(),
            ev == event_views(events@),
            books_run(ev, base_url@, 0, books_start()) == books_run(ev, base_url@, i as int, st.state()),
        decreases events@.len() - i,
    {
        match &events[i] {
            XmlEvent::Error(e) => {
                assert(ev[i as int] == XmlEventView::Error(e@));
                let prefix = text::str_chars("Failed to parse address books XML: ");
                let mut m = prefix;
                let ec = text::string_chars(e);
                text::append_chars(&mut m, ec.as_slice());
                return Err(HimalayaError::Parse(text::chars_to_string(m.as_slice())));
            },
            XmlEvent::Start(n) => {
                assert(ev[i as int] == XmlEventView::Start(n@));
                let nc = text::string_chars(n);
                i = books_start_step(events, base_url, i, &mut st, nc.as_slice());
            },
            XmlEvent::Empty(n) => {
                assert(ev[i as int] == XmlEventView::Empty(n@));
                let nc = text::string_chars(n);
                if st.in_prop && text::contains_lit(nc.as_slice(), "addressbook") && !text::contains_lit(nc.as_slice(), "description")
                    && !text::contains_lit(nc.as_slice(), "home") {
                    st.is_book = true;
                }
                i += 1;
            },
            XmlEvent::End(n) => {
                assert(ev[i as int] == XmlEventView::End(n@));
                let nc = text::string_chars(n);
                books_end_step(events, base_url, i, &mut st, nc.as_slice());
                i += 1;
            },
            XmlEvent::Text(t) => {
                assert(ev[i as int] == XmlEventView::Text(t@));
                i += 1;
            },
            XmlEvent::Other => {
                assert(ev[i as int] == XmlEventView::Other);
                i += 1;
            },
        }
    }
    assert(st.state().books == st.books@.map_values(|b: vcard::AddressBook| book_view(b)));
    Ok(st.books)
}

/// Reads the address books from a PROPFIND listing of the address-book home.
pub fn parse_address_books_response(xml: &str, base_url: &str) -> (r: Result<Vec<vcard::AddressBook>, HimalayaError>)
    ensures
        r matches Err(e) ==> e is Parse,
        books_result_view(r) == books_outcome(xml_event_seq(xml@), base_url@),
{
    let events = xml_events(xml);
    address_books_from_events(events.as_slice(), base_url)
}


// ── Contacts ────────────────────────────────────────────────────────────────

/// The state of reading a contacts report: the contacts read so far (with
/// the identifiers their cards give) and the parts of the current response.
pub struct ContactsState {
    pub contacts: Seq<vcard::ContactView>,
    pub href: Option<Seq<char>>,
    pub etag: Option<Seq<char>>,
    pub card: Option<Seq<char>>,
    pub in_response: bool,
}

/// The state before any event.
pub open spec fn contacts_start() -> ContactsState {
    ContactsState { contacts: Seq::empty(), href: None, etag: None, card: None, in_response: false }
}

/// The href of a contact: a path starting with `/` gets the scheme and host
/// of `base` (and stays as it is when `base` is not a URL).
pub open spec fn contact_href(h: Seq<char>, base: Seq<char>) -> Seq<char> {
    if text::starts_with(h, "/"@) {
        match url_parse(base) {
            Ok((scheme, host)) => with_origin(scheme, host, h),
            Err(_) => h,
        }
    } else {
        h
    }
}

/// The contact of a response whose card is `card`: the card read, with the
/// card itself, the response's entity tag and its href made absolute.
pub open spec fn response_contact(card: Seq<char>, etag: Option<Seq<char>>, href: Option<Seq<char>>, base: Seq<char>) -> vcard::ContactView {
    let c = vcard::read_vcard(card);
    vcard::ContactView {
        raw_vcard: Some(card),
        etag: etag,
        href: match href {
            Some(h) => Some(contact_href(h, base)),
            None => c.href,
        },
        ..c
    }
}

/// Reading a contacts report from event `i` on: each `response` whose
/// `address-data` is not blank gives the contact of its card, with its
/// `getetag` (without quotes) and its `href`. The text of these elements is
/// the event right after their start, if that event is text. An error stops
/// the reading with its message.
pub open spec fn contacts_run(ev: Seq<XmlEventView>, base: Seq<char>, i: int, st: ContactsState) -> Result<Seq<vcard::ContactView>, Seq<char>>
    decreases ev.len() - i,
{
    if i < 0 || i >= ev.len() {
        Ok(st.contacts)
    } else {
        match ev[i] {
            XmlEventView::Error(e) => Err(e),
            XmlEventView::Start(n) => {
                if is_response(n) {
                    contacts_run(ev, base, i + 1, ContactsState { in_response: true, href: None, etag: None, card: None, ..st })
                } else if st.in_response && text::contains(n, "href"@) && st.href is None {
                    contacts_run(ev, base, after_taken(ev, i), ContactsState { href: if next_text(ev, i) is Some { next_text(ev, i) } else { st.href }, ..st })
                } else if st.in_response && text::contains(n, "getetag"@) {
                    contacts_run(ev, base, after_taken(ev, i), ContactsState {
                        etag: match next_text(ev, i) { Some(t) => Some(text::trim_char(t, '"')), None => st.etag },
                        ..st
                    })
                } else if st.in_response && text::contains(n, "address-data"@) {
                    contacts_run(ev, base, after_taken(ev, i), ContactsState { card: if next_text(ev, i) is Some { next_text(ev, i) } else { st.card }, ..st })
                } else {
                    contacts_run(ev, base, i + 1, st)
                }
            },
            XmlEventView::End(n) => {
                if is_response(n) {
                    match st.card {
                        Some(card) => if text::trim(card).len() > 0 {
                            let c = response_contact(card, st.etag, st.href, base);
                            contacts_run(ev, base, i + 1, ContactsState {
                                contacts: st.contacts.push(c),
                                card: None,
                                etag: None,
                                href: None,
                                in_response: false,
                            })
                        } else {
                            contacts_run(ev, base, i + 1, ContactsState { card: None, in_response: false, ..st })
                        },
                        None => contacts_run(ev, base, i + 1, ContactsState { in_response: false, ..st }),
                    }
                } else {
                    contacts_run(ev, base, i + 1, st)
                }
            },
            _ => contacts_run(ev, base, i + 1, st),
        }
    }
}

/// What reading a contacts report gives: the contacts, or the message of an
/// XML error after `Failed to parse contacts XML: `.
pub open spec fn contacts_outcome(ev: Seq<XmlEventView>, base: Seq<char>) -> Result<Seq<vcard::ContactView>, Seq<char>> {
    match contacts_run(ev, base, 0, contacts_start()) {
        Ok(c) => Ok(c),
        Err(e) => Err("Failed to parse contacts XML: "@ + e),
    }
}

/// Each contact is read as the expected one (see [`vcard::read_as`]).
pub open spec fn contacts_read_as(cs: Seq<vcard::Contact>, expected: Seq<vcard::ContactView>) -> bool {
    &&& cs.len() == expected.len()
    &&& forall|k: int| 0 <= k < cs.len() ==> vcard::read_as(#[trigger] cs[k]@, expected[k])
}

/// The result of reading a contacts report matches `outcome`.
pub open spec fn contacts_result_ok(r: Result<Vec<vcard::Contact>, HimalayaError>, outcome: Result<Seq<vcard::ContactView>, Seq<char>>) -> bool {
    match r {
        Ok(cs) => outcome matches Ok(expected) && contacts_read_as(cs@, expected),
        Err(e) => e is Parse && outcome == Err::<Seq<vcard::ContactView>, Seq<char>>(e.parts().1),
    }
}

/// The state of reading a contacts report.
struct ContactsReader {
    contacts: Vec<vcard::Contact>,
    href: Option<String>,
    etag: Option<String>,
    card: Option<String>,
    in_response: bool,
}

impl ContactsReader {
    /// The state, with `expected` for the contacts read so far.
    spec fn state(&self, expected: Seq<vcard::ContactView>) -> ContactsState {
        ContactsState {
            contacts: expected,
            href: text::opt_view(self.href),
            etag: text::opt_view(self.etag),
            card: text::opt_view(self.card),
            in_response: self.in_response,
        }
    }
}

/// The step at an element start of a contacts report.
fn contacts_start_step(events: &[XmlEvent], base: &str, i: usize, st: &mut ContactsReader, nc: &[char], Ghost(expected): Ghost<Seq<vcard::ContactView>>) -> (next: usize)
    requires
        i < events@.len(),
        event_views(events@)[i as int] == XmlEventView::Start(nc@),
    ensures
        i < next <= events@.len(),
        final(st).contacts@ == old(st).contacts@,
        contacts_run(event_views(events@), base@, i as int, old(st).state(expected))
            == contacts_run(event_views(events@), base@, next as int, final(st).state(expected)),
{
    let n: usize = events.len();
    assert(i < n);
    if text::contains_lit(nc, "response") && !text::contains_lit(nc, "multistatus") {
        st.in_response = true;
        st.href = None;
        st.etag = None;
        st.card = None;
        i + 1
    } else if st.in_response && text::contains_lit(nc, "href") && st.href.is_none() {
        let t = next_text_exec(events, i);
        if t.is_some() {
            st.href = t;
        }
        after_taken_exec(events, i)
    } else if st.in_response && text::contains_lit(nc, "getetag") {
        let t = next_text_exec(events, i);
        match t {
            Some(tag) => {
                let tc = text::string_chars(&tag);
                let trimmed = text::trim_char_exec(tc.as_slice(), '"');
                st.etag = Some(text::chars_to_string(trimmed.as_slice()));
            },
            None => {},
        }
        after_taken_exec(events, i)
    } else if st.in_response && text::contains_lit(nc, "address-data") {
        let t = next_text_exec(events, i);
        if t.is_some() {
            st.card = t;
        }
        after_taken_exec(events, i)
    } else {
        i + 1
    }
}

/// The href of a contact made absolute (see [`contact_href`]).
fn contact_href_exec(h: &String, base: &str) -> (r: String)
    ensures
        r@ == contact_href(h@, base@),
{
    let hc = text::string_chars(h);
    if text::starts_with_lit(hc.as_slice(), "/") {
        let u = parse_url(base);
        match u {
            Ok((scheme, host)) => {
                assert(url_parse(base@) == Ok::<(Seq<char>, Option<Seq<char>>), Seq<char>>((scheme@, text::opt_view(host))));
                let v = origin_exec(&scheme, &host, hc.as_slice());
                text::chars_to_string(v.as_slice())
            },
            Err(_) => h.clone(),
        }
    } else {
        h.clone()
    }
}

/// The contact of a response whose card is `card`.
fn response_contact_exec(card: &String, etag: &Option<String>, href: &Option<String>, base: &str) -> (r: vcard::Contact)
    ensures
        vcard::read_as(r@, response_contact(card@, text::opt_view(*etag), text::opt_view(*href), base@)),
{
    let parsed = vcard::parse_vcard(card.as_str());
    let mut contact = match parsed {
        Ok(c) => c,
        Err(_) => vcard::Contact::new(),
    };
    contact.raw_vcard = Some(card.clone());
    contact.etag = text::copy_opt(etag);
    match href {
        Some(h) => {
            contact.href = Some(contact_href_exec(h, base));
        },
        None => {},
    }
    contact
}

/// The step at an element end of a contacts report.
fn contacts_end_step(events: &[XmlEvent], base: &str, i: usize, st: &mut ContactsReader, nc: &[char], Ghost(expected): Ghost<Seq<vcard::ContactView>>) -> (new_expected: Ghost<Seq<vcard::ContactView>>)
    requires
        i < events@.len(),
        event_views(events@)[i as int] == XmlEventView::End(nc@),
        contacts_read_as(old(st).contacts@, expected),
    ensures
        contacts_read_as(final(st).contacts@, new_expected@),
        contacts_run(event_views(events@), base@, i as int, old(st).state(expected))
            == contacts_run(event_views(events@), base@, i + 1, final(st).state(new_expected@)),
{
    if text::contains_lit(nc, "response") && !text::contains_lit(nc, "multistatus") {
        st.in_response = false;
        let card = st.card.take();
        match card {
            Some(v) => {
                let vc = text::string_chars(&v);
                let trimmed = text::trim_chars(vc.as_slice());
                if trimmed.len() > 0 {
                    let c = response_contact_exec(&v, &st.etag, &st.href, base);
                    let ghost cv = response_contact(v@, text::opt_view(st.etag), text::opt_view(st.href), base@);
                    st.etag = None;
                    st.href = None;
                    let ghost c0 = st.contacts@;
                    st.contacts.push(c);
                    let ghost ne = expected.push(cv);
                    assert forall|k: int| 0 <= k < st.contacts@.len() implies vcard::read_as(#[trigger] st.contacts@[k]@, ne[k]) by {
                        if k < c0.len() {
                            assert(st.contacts@[k] == c0[k]);
                        }
                    }
                    return Ghost(ne);
                }
            },
            None => {},
        }
    }
    Ghost(expected)
}

/// The contacts in the events of a REPORT response (see
/// [`contacts_outcome`]); each card is read with [`vcard::parse_vcard`].
pub fn contacts_from_events(events: &[XmlEvent], base_url: &str) -> (r: Result<Vec<vcard::Contact>, HimalayaError>)
    ensures
        contacts_result_ok(r, contacts_outcome(event_views(events@), base_url@)),
{
    let ghost ev = event_views(events@);
    let mut st = ContactsReader { contacts: Vec::new(), href: None, etag: None, card: None, in_response: false };
    let ghost mut expected: Seq<vcard::ContactView> = Seq::empty();
    assert(st.state(expected) == contacts_start());
    let mut i: usize = 0;
    while i < events.len()
        invariant
            i <= events@.len(),
            ev == event_views(events@),
            contacts_read_as(st.contacts@, expected),
            contacts_run(ev, base_url@, 0, contacts_start()) == contacts_run(ev, base_url@, i as int, st.state(expected)),
        decreases events@.len() - i,
    {
        match &events[i] {
            XmlEvent::Error(e) => {
                assert(ev[i as int] == XmlEventView::Error(e@));
                let prefix = text::str_chars("Failed to parse contacts XML: ");
                let mut m = prefix;
                let ec = text::string_chars(e);
                text::append_chars(&mut m, ec.as_slice());
                return Err(HimalayaError::Parse(text::chars_to_string(m.as_slice())));
            },
            XmlEvent::Start(n) => {
                assert(ev[i as int] == XmlEventView::Start(n@));
                let nc = text::string_chars(n);
                i = contacts_start_step(events, base_url, i, &mut st, nc.as_slice(), Ghost(expected));
            },
            XmlEvent::End(n) => {
                assert(ev[i as int] == XmlEventView::End(n@));
                let nc = text::string_chars(n);
                let g = contacts_end_step(events, base_url, i, &mut st, nc.as_slice(), Ghost(expected));
                proof { expected = g@; }
                i += 1;
            },
            XmlEvent::Empty(n) => {
                assert(ev[i as int] == XmlEventView::Empty(n@));
                i += 1;
            },
            XmlEvent::Text(t) => {
                assert(ev[i as int] == XmlEventView::Text(t@));
                i += 1;
            },
            XmlEvent::Other => {
                assert(ev[i as int] == XmlEventView::Other);
                i += 1;
            },
        }
    }
    Ok(st.contacts)
}

/// Reads the contacts of a REPORT response of an address book.
pub fn parse_contacts_response(xml: &str, base_url: &str) -> (r: Result<Vec<vcard::Contact>, HimalayaError>)
    ensures
        contacts_result_ok(r, contacts_outcome(xml_event_seq(xml@), base_url@)),
{
    let events = xml_events(xml);
    contacts_from_events(events.as_slice(), base_url)
}

// ── Requests ────────────────────────────────────────────────────────────────

/// The `Authorization` header of a password login: `Basic` and the base64
/// of `user:password` in UTF-8.
pub fn build_auth_header(user: &str, password: &str) -> (r: String)
    ensures
        r@ == "Basic "@ + crate::crypto::base64_text(vstd::utf8::encode_utf8(user@ + ":"@ + password@)),
{
    let mut creds = text::str_chars(user);
    creds.push(':');
    text::append_chars(&mut creds, text::str_chars(password).as_slice());
    let joined = text::chars_to_string(creds.as_slice());
    proof { reveal_strlit(":"); }
    assert(joined@ =~= user@ + ":"@ + password@);
    let encoded = crate::crypto::base64_encode(joined.as_str().as_bytes());
    text::chars_to_string(text::lit_then("Basic ", text::string_chars(&encoded).as_slice()).as_slice())
}

/// The address book contacts are kept in: the configured one, else the
/// first one the server lists.
pub fn address_book_url(configured: &Option<String>, books: &Vec<vcard::AddressBook>) -> (r: Result<String, HimalayaError>)
    ensures
        match configured {
            Some(c) => r matches Ok(u) && u@ == c@,
            None => if books@.len() > 0 {
                r matches Ok(u) && u@ == books@[0].href@
            } else {
                r matches Err(e) && e.parts() == (2int, "No address books found"@)
            },
        },
{
    match configured {
        Some(c) => Ok(c.clone()),
        None => {
            if books.len() > 0 {
                Ok(books[0].href.clone())
            } else {
                Err(HimalayaError::Config("No address books found".to_string()))
            }
        },
    }
}

/// The media type of CardDAV request bodies.
pub fn request_content_type() -> (r: String)
    ensures
        r@ == "application/xml; charset=utf-8"@,
{
    "application/xml; charset=utf-8".to_string()
}

} // verus!
