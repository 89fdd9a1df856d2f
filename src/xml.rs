//! Decoding of sitemap documents. A document is read into XML tokens; the two
//! shapes, `<sitemapindex><sitemap><loc>` and `<urlset><url><loc>`, are told
//! apart by the root element's name, and only `loc` values are kept.

use vstd::prelude::*;
use vstd::string::StringExecFns;
use crate::text::views;
use quick_xml::events::Event;
use quick_xml::Reader;
use self::XmlToken::{Close, Leaf, Open, Other, Text};

verus! {

/// One token of an XML document, element names without namespace prefix.
#[derive(Clone, Debug)]
pub enum XmlToken {
    /// A start tag.
    Open(String),
    /// An end tag.
    Close(String),
    /// A self-closing element, such as `<loc/>`.
    Leaf(String),
    /// Character data, entities resolved, surrounding whitespace trimmed; or
    /// the content of a CDATA section, as it stands.
    Text(String),
    /// A declaration, comment, processing instruction or doctype.
    Other,
}

/// What an [`XmlToken`] holds, as plain values.
pub enum Token {
    Open(Seq<char>),
    Close(Seq<char>),
    Leaf(Seq<char>),
    Text(Seq<char>),
    Other,
}

impl View for XmlToken {
    type V = Token;

    open spec fn view(&self) -> Token {
        match self {
            XmlToken::Open(n) => Token::Open(n@),
            XmlToken::Close(n) => Token::Close(n@),
            XmlToken::Leaf(n) => Token::Leaf(n@),
            XmlToken::Text(t) => Token::Text(t@),
            XmlToken::Other => Token::Other,
        }
    }
}

pub open spec fn token_views(v: Seq<XmlToken>) -> Seq<Token> {
    v.map_values(|t: XmlToken| t@)
}

/// The tokens of the XML text `text`, or `None` where the XML reader refuses it.
pub uninterp spec fn xml_tokens(text: Seq<char>) -> Option<Seq<Token>>;

/// Relies on quick_xml::Reader::read_event, run to the end of `text` with
/// text trimming on: the document's events in order, or `None` on its first
/// error.
#[verifier::external_body]
pub(crate) fn read_tokens(text: &str) -> (r: Option<Vec<XmlToken>>)
    ensures
        match r {
            None => xml_tokens(text@) is None,
            Some(v) => xml_tokens(text@) == Some(token_views(v@)),
        },
{
    let name = |b: &[u8]| String::from_utf8_lossy(b).into_owned();
    let mut reader = Reader::from_str(text);
    reader.trim_text(true);
    let mut out = Vec::new();
    loop {
        out.push(match reader.read_event().ok()? {
            Event::Start(e) => Open(name(e.local_name().as_ref())),
            Event::End(e) => Close(name(e.local_name().as_ref())),
            Event::Empty(e) => Leaf(name(e.local_name().as_ref())),
            Event::Text(t) => Text(t.unescape().ok()?.into_owned()),
            Event::CData(c) => Text(name(&c)),
            Event::Eof => return Some(out),
            _ => Other,
        });
    }
}

/// Why a document yields no locations.
#[derive(Clone, Copy, Debug, PartialEq, Eq, Structural)]
pub enum ParseError {
    /// The XML reader refused the text.
    Malformed,
    /// The document has no root element.
    NoRoot,
    /// An entry element has no `loc`.
    MissingLoc,
}

/// Where a scan for entry locations stands after some tokens.
pub struct ScanState {
    /// Number of elements open.
    pub depth: nat,
    /// Inside an entry element, a child of the root.
    pub in_entry: bool,
    /// Inside the `loc` element of an entry.
    pub in_loc: bool,
    /// The text of the `loc` element being read.
    pub text: Seq<char>,
    /// The location of the entry being read, once its `loc` closed.
    pub entry_loc: Option<Seq<char>>,
    /// The locations of the entries closed so far, in document order.
    pub locs: Seq<Seq<char>>,
    /// An entry closed without a `loc`.
    pub failed: bool,
}

pub open spec fn scan_start() -> ScanState {
    ScanState {
        depth: 0,
        in_entry: false,
        in_loc: false,
        text: seq![],
        entry_loc: None,
        locs: seq![],
        failed: false,
    }
}

/// The effect of one token on a scan for the locations of the root's
/// children named `entry`; other elements and their text are passed over.
pub open spec fn scan_step(s: ScanState, t: Token, entry: Seq<char>) -> ScanState {
    match t {
        Token::Open(n) => {
            if s.depth == 1 && n == entry {
                ScanState { depth: s.depth + 1, in_entry: true, entry_loc: None, ..s }
            } else if s.depth == 2 && s.in_entry && n == "loc"@ {
                ScanState { depth: s.depth + 1, in_loc: true, text: seq![], ..s }
            } else {
                ScanState { depth: s.depth + 1, ..s }
            }
        },
        Token::Leaf(n) => {
            if s.depth == 1 && n == entry {
                ScanState { failed: true, ..s }
            } else if s.depth == 2 && s.in_entry && n == "loc"@ {
                ScanState { entry_loc: Some(seq![]), ..s }
            } else {
                s
            }
        },
        Token::Text(x) => {
            if s.in_loc && s.depth == 3 {
                ScanState { text: s.text + x, ..s }
            } else {
                s
            }
        },
        Token::Close(_) => {
            if s.depth == 0 {
                s
            } else if s.depth == 3 && s.in_loc {
                ScanState { depth: 2, in_loc: false, entry_loc: Some(s.text), ..s }
            } else if s.depth == 2 && s.in_entry {
                match s.entry_loc {
                    Some(l) => ScanState { depth: 1, in_entry: false, locs: s.locs.push(l), ..s },
                    None => ScanState { depth: 1, in_entry: false, failed: true, ..s },
                }
            } else {
                ScanState { depth: (s.depth - 1) as nat, ..s }
            }
        },
        Token::Other => s,
    }
}

/// The scan after all of `tokens`.
pub open spec fn scan(tokens: Seq<Token>, entry: Seq<char>) -> ScanState
    decreases tokens.len(),
{
    if tokens.len() == 0 {
        scan_start()
    } else {
        scan_step(scan(tokens.drop_last(), entry), tokens.last(), entry)
    }
}

/// The `loc` values of the root's children named `entry`, in document order;
/// `None` where one of those children has no `loc`.
pub open spec fn entry_locs(tokens: Seq<Token>, entry: Seq<char>) -> Option<Seq<Seq<char>>> {
    let s = scan(tokens, entry);
    if s.failed {
        None
    } else {
        Some(s.locs)
    }
}

/// The name of the first element that starts at or after position `i`.
pub open spec fn root_from(tokens: Seq<Token>, i: int) -> Option<Seq<char>>
    decreases tokens.len() - i,
{
    if i < 0 || i >= tokens.len() {
        None
    } else {
        match tokens[i] {
            Token::Open(n) => Some(n),
            Token::Leaf(n) => Some(n),
            _ => root_from(tokens, i + 1),
        }
    }
}

/// The name of the root element.
pub open spec fn root_name(tokens: Seq<Token>) -> Option<Seq<char>> {
    root_from(tokens, 0)
}

/// The page locations of a url-set: the `loc` of each `url` child of the root.
pub open spec fn url_set_locs(tokens: Seq<Token>) -> Result<Seq<Seq<char>>, ParseError> {
    if root_name(tokens) is None {
        Err(ParseError::NoRoot)
    } else {
        match entry_locs(tokens, "url"@) {
            None => Err(ParseError::MissingLoc),
            Some(l) => Ok(l),
        }
    }
}

/// The child sitemap locations of an index: the root is `sitemapindex` and
/// each `sitemap` child has a `loc`.
pub open spec fn index_locs(tokens: Seq<Token>) -> Option<Seq<Seq<char>>> {
    if root_name(tokens) == Some("sitemapindex"@) {
        entry_locs(tokens, "sitemap"@)
    } else {
        None
    }
}

/// The tokens of `url` entries written plainly: for each location in turn, a
/// `url` element that holds a `loc` element with that text.
pub open spec fn plain_entries(locs: Seq<Seq<char>>) -> Seq<Token>
    decreases locs.len(),
{
    if locs.len() == 0 {
        seq![]
    } else {
        plain_entries(locs.drop_last()) + seq![
            Token::Open("url"@),
            Token::Open("loc"@),
            Token::Text(locs.last()),
            Token::Close("loc"@),
            Token::Close("url"@),
        ]
    }
}

/// A url-set written plainly: the root `urlset` around [`plain_entries`].
pub open spec fn plain_url_set(locs: Seq<Seq<char>>) -> Seq<Token> {
    seq![Token::Open("urlset"@)] + plain_entries(locs) + seq![Token::Close("urlset"@)]
}

proof fn lemma_plain_entries_scan(locs: Seq<Seq<char>>)
    ensures
        ({
            let s = scan(seq![Token::Open("urlset"@)] + plain_entries(locs), "url"@);
            &&& s.depth == 1
            &&& !s.in_entry
            &&& !s.in_loc
            &&& !s.failed
            &&& s.locs == locs
        }),
    decreases locs.len(),
{
    reveal_strlit("url");
    reveal_strlit("loc");
    reveal_strlit("urlset");
    let head = seq![Token::Open("urlset"@)];
    if locs.len() == 0 {
        let p = head + plain_entries(locs);
        assert(p =~= head);
        assert(p.drop_last() =~= Seq::<Token>::empty());
        assert(scan(p.drop_last(), "url"@) == scan_start());
        assert(locs =~= Seq::<Seq<char>>::empty());
    } else {
        let rest = locs.drop_last();
        let l = locs.last();
        lemma_plain_entries_scan(rest);
        let q = head + plain_entries(rest);
        let p1 = q.push(Token::Open("url"@));
        let p2 = p1.push(Token::Open("loc"@));
        let p3 = p2.push(Token::Text(l));
        let p4 = p3.push(Token::Close("loc"@));
        let p5 = p4.push(Token::Close("url"@));
        assert(head + plain_entries(locs) =~= p5);
        assert(p1.drop_last() =~= q);
        assert(p2.drop_last() =~= p1);
        assert(p3.drop_last() =~= p2);
        assert(p4.drop_last() =~= p3);
        assert(p5.drop_last() =~= p4);
        let url = "url"@;
        let s0 = scan(q, url);
        assert(scan(p1, url) == scan_step(s0, Token::Open("url"@), url));
        assert(scan(p1, url).depth == 2 && scan(p1, url).in_entry && !scan(p1, url).in_loc);
        assert(scan(p2, url) == scan_step(scan(p1, url), Token::Open("loc"@), url));
        assert(scan(p2, url).depth == 3 && scan(p2, url).in_loc && scan(p2, url).text == Seq::<char>::empty());
        assert(scan(p3, url) == scan_step(scan(p2, url), Token::Text(l), url));
        assert(scan(p3, url).text =~= l);
        assert(scan(p4, url) == scan_step(scan(p3, url), Token::Close("loc"@), url));
        assert(scan(p4, url).entry_loc == Some(l));
        assert(scan(p5, url) == scan_step(scan(p4, url), Token::Close("url"@), url));
        assert(scan(p5, url).locs == s0.locs.push(l));
        assert(s0.locs.push(l) =~= locs);
    }
}

/// A url-set written plainly decodes to exactly its location texts, in
/// order and with repeats kept.
pub proof fn lemma_plain_url_set(locs: Seq<Seq<char>>)
    ensures
        url_set_locs(plain_url_set(locs)) == Ok::<Seq<Seq<char>>, ParseError>(locs),
{
    reveal_strlit("url");
    reveal_strlit("urlset");
    lemma_plain_entries_scan(locs);
    let t = plain_url_set(locs);
    assert(t.drop_last() =~= seq![Token::Open("urlset"@)] + plain_entries(locs));
    assert(t[0] == Token::Open("urlset"@));
    assert(root_from(t, 0) == Some("urlset"@));
}

/// A decoded sitemap document.
#[derive(Clone, Debug)]
pub enum Sitemap {
    /// A sitemap index, with the locations of its child sitemaps.
    Index(Vec<String>),
    /// A url-set, with the locations of its pages.
    UrlSet(Vec<String>),
}

/// A decoded document as plain values: whether it is an index, and its locations.
pub open spec fn sitemap_view(r: Result<Sitemap, ParseError>) -> Result<(bool, Seq<Seq<char>>), ParseError> {
    match r {
        Ok(Sitemap::Index(v)) => Ok((true, views(v@))),
        Ok(Sitemap::UrlSet(v)) => Ok((false, views(v@))),
        Err(e) => Err(e),
    }
}

/// A document decodes as an index where it has that shape, else as a url-set.
pub open spec fn sitemap_of_tokens(tokens: Seq<Token>) -> Result<(bool, Seq<Seq<char>>), ParseError> {
    match index_locs(tokens) {
        Some(c) => Ok((true, c)),
        None => match url_set_locs(tokens) {
            Ok(l) => Ok((false, l)),
            Err(e) => Err(e),
        },
    }
}

pub open spec fn url_set_of(text: Seq<char>) -> Result<Seq<Seq<char>>, ParseError> {
    match xml_tokens(text) {
        None => Err(ParseError::Malformed),
        Some(t) => url_set_locs(t),
    }
}

pub open spec fn sitemap_of(text: Seq<char>) -> Result<(bool, Seq<Seq<char>>), ParseError> {
    match xml_tokens(text) {
        None => Err(ParseError::Malformed),
        Some(t) => sitemap_of_tokens(t),
    }
}

pub open spec fn opt_views(o: Option<Vec<String>>) -> Option<Seq<Seq<char>>> {
    match o {
        None => None,
        Some(v) => Some(views(v@)),
    }
}

/// The name of the root element of `tokens`.
pub fn root_element(tokens: &Vec<XmlToken>) -> (r: Option<String>)
    ensures
        match r {
            None => root_name(token_views(tokens@)) is None,
            Some(n) => root_name(token_views(tokens@)) == Some(n@),
        },
{
    let ghost tv = token_views(tokens@);
    let mut i: usize = 0;
    while i < tokens.len()
        invariant
            i <= tokens.len(),
            tv == token_views(tokens@),
            root_from(tv, 0) == root_from(tv, i as int),
        decreases tokens.len() - i,
    {
        match &tokens[i] {
            XmlToken::Open(n) => return Some(n.clone()),
            XmlToken::Leaf(n) => return Some(n.clone()),
            _ => {},
        }
        i = i + 1;
    }
    None
}

/// The `loc` values of the root's children named `entry`, in document order.
pub fn entry_locations(tokens: &Vec<XmlToken>, entry: &String) -> (r: Option<Vec<String>>)
    ensures
        opt_views(r) == entry_locs(token_views(tokens@), entry@),
{
    let ghost tv = token_views(tokens@);
    let loc_name = String::from_str("loc");
    let mut depth: usize = 0;
    let mut in_entry = false;
    let mut in_loc = false;
    let mut text = String::new();
    let mut entry_loc: Option<String> = None;
    let mut locs: Vec<String> = Vec::new();
    let mut failed = false;
    let mut i: usize = 0;
    assert(tv.take(0) =~= Seq::<Token>::empty());
    assert(views(locs@) =~= Seq::<Seq<char>>::empty());
    while i < tokens.len()
        invariant
            i <= tokens.len(),
            depth <= i,
            tv == token_views(tokens@),
            loc_name@ == "loc"@,
            scan(tv.take(i as int), entry@) == (ScanState {
                depth: depth as nat,
                in_entry,
                in_loc,
                text: text@,
                entry_loc: match entry_loc {
                    Some(l) => Some(l@),
                    None => None,
                },
                locs: views(locs@),
                failed,
            }),
        decreases tokens.len() - i,
    {
        assert(tv.take(i as int + 1).drop_last() =~= tv.take(i as int));
        let ghost locs_before = locs@;
        match &tokens[i] {
            XmlToken::Open(n) => {
                if depth == 1 && *n == *entry {
                    in_entry = true;
                    entry_loc = None;
                } else if depth == 2 && in_entry && *n == loc_name {
                    in_loc = true;
                    text = String::new();
                }
                depth = depth + 1;
            },
            XmlToken::Leaf(n) => {
                if depth == 1 && *n == *entry {
                    failed = true;
                } else if depth == 2 && in_entry && *n == loc_name {
                    entry_loc = Some(String::new());
                }
            },
            XmlToken::Text(x) => {
                if in_loc && depth == 3 {
                    text.append(x.as_str());
                }
            },
            XmlToken::Close(_) => {
                if depth == 0 {
                } else if depth == 3 && in_loc {
                    depth = 2;
                    in_loc = false;
                    entry_loc = Some(text.clone());
                } else if depth == 2 && in_entry {
                    depth = 1;
                    in_entry = false;
                    match &entry_loc {
                        Some(l) => {
                            locs.push(l.clone());
                            assert(views(locs@) =~= views(locs_before).push(l@));
                        },
                        None => {
                            failed = true;
                        },
                    }
                } else {
                    depth = depth - 1;
                }
            },
            XmlToken::Other => {},
        }
        i = i + 1;
    }
    assert(tv.take(i as int) =~= tv);
    if failed {
        None
    } else {
        Some(locs)
    }
}

/// Decodes tokens as a url-set: the `loc` of each `url` child of the root.
pub fn decode_url_set_tokens(tokens: &Vec<XmlToken>) -> (r: Result<Vec<String>, ParseError>)
    ensures
        match r {
            Ok(v) => url_set_locs(token_views(tokens@)) == Ok::<Seq<Seq<char>>, ParseError>(views(v@)),
            Err(e) => url_set_locs(token_views(tokens@)) == Err::<Seq<Seq<char>>, ParseError>(e),
        },
{
    if root_element(tokens).is_none() {
        return Err(ParseError::NoRoot);
    }
    match entry_locations(tokens, &String::from_str("url")) {
        None => Err(ParseError::MissingLoc),
        Some(v) => Ok(v),
    }
}

/// Decodes tokens as a sitemap index where the root is `sitemapindex` and
/// each `sitemap` child has a `loc`, and as a url-set otherwise.
pub fn decode_sitemap_tokens(tokens: &Vec<XmlToken>) -> (r: Result<Sitemap, ParseError>)
    ensures
        sitemap_view(r) == sitemap_of_tokens(token_views(tokens@)),
{
    let is_index = match root_element(tokens) {
        Some(n) => n == String::from_str("sitemapindex"),
        None => false,
    };
    if is_index {
        if let Some(v) = entry_locations(tokens, &String::from_str("sitemap")) {
            return Ok(Sitemap::Index(v));
        }
    }
    match decode_url_set_tokens(tokens) {
        Ok(v) => Ok(Sitemap::UrlSet(v)),
        Err(e) => Err(e),
    }
}

/// Decodes the text of a url-set document into its page locations.
pub fn decode_url_set(text: &str) -> (r: Result<Vec<String>, ParseError>)
    ensures
        match r {
            Ok(v) => url_set_of(text@) == Ok::<Seq<Seq<char>>, ParseError>(views(v@)),
            Err(e) => url_set_of(text@) == Err::<Seq<Seq<char>>, ParseError>(e),
        },
{
    match read_tokens(text) {
        None => Err(ParseError::Malformed),
        Some(tokens) => decode_url_set_tokens(&tokens),
    }
}

/// Decodes the text of a sitemap document, index or url-set.
pub fn decode_sitemap(text: &str) -> (r: Result<Sitemap, ParseError>)
    ensures
        sitemap_view(r) == sitemap_of(text@),
{
    match read_tokens(text) {
        None => Err(ParseError::Malformed),
        Some(tokens) => decode_sitemap_tokens(&tokens),
    }
}

} // verus!
