//! The extractor: walks a parse tree and collects the request that it describes.

use vstd::prelude::*;
use crate::chars::{header_parts, split_header, strip_quotes, unquoted, uppercase};
use crate::chars::lemma_header_parts_trimmed;
use crate::grammar::{command, Mismatch, Node, Rule};
use crate::parser::{views, CurlParser, Pair, SyntaxError};
use crate::request::{distinct_names, is_uppercased, trimmed_entries, upsert};
use crate::request::{lemma_upsert_distinct, lemma_find_name};
use crate::request::{CurlRequest, Entries, Headers, RequestModel};

verus! {

/// Why a text gives no request, as a mathematical value.
pub enum Failure {
    /// The text is no command line.
    Syntax(Mismatch),
    /// The command line holds no URL.
    MissingUrl,
    /// The named flag has no value.
    MissingValue(Seq<char>),
}

/// Why a text gives no request.
#[derive(Clone, Copy, Debug, PartialEq, Eq)]
pub enum ParseError {
    /// The text is no command line.
    Syntax(SyntaxError),
    /// The command line holds no URL.
    MissingUrl,
    /// The named flag has no value.
    MissingValue(&'static str),
}

impl View for ParseError {
    type V = Failure;

    open spec fn view(&self) -> Failure {
        match *self {
            ParseError::Syntax(e) => Failure::Syntax(e@),
            ParseError::MissingUrl => Failure::MissingUrl,
            ParseError::MissingValue(flag) => Failure::MissingValue(flag@),
        }
    }
}

/// What the result of a parse stands for.
pub open spec fn outcome(r: Result<CurlRequest, ParseError>) -> Result<RequestModel, Failure> {
    match r {
        Ok(request) => Ok(request@),
        Err(e) => Err(e@),
    }
}

/// The request before anything was collected: every part is empty.
pub open spec fn empty_request() -> RequestModel {
    RequestModel {
        method: Seq::empty(),
        url: Seq::empty(),
        headers: Entries::empty(),
        body: Seq::empty(),
    }
}

/// A URL token was met: the first one that is not empty once its quotes are off is kept.
pub open spec fn with_url(m: RequestModel, text: Seq<char>) -> RequestModel {
    if m.url.len() == 0 {
        RequestModel { url: unquoted(text), ..m }
    } else {
        m
    }
}

/// A method was met, already in uppercase: the last one is kept.
pub open spec fn with_method(m: RequestModel, upper: Seq<char>) -> RequestModel {
    RequestModel { method: upper, ..m }
}

/// A header value was met: it is set if it holds a colon, and dropped if it does not.
pub open spec fn with_header(m: RequestModel, text: Seq<char>) -> RequestModel {
    match header_parts(unquoted(text)) {
        Some((name, value)) => RequestModel { headers: upsert(m.headers, name, value), ..m },
        None => m,
    }
}

/// A body was met: the last one is kept.
pub open spec fn with_data(m: RequestModel, text: Seq<char>) -> RequestModel {
    RequestModel { body: unquoted(text), ..m }
}

/// The name by which a flag is reported when its value is missing.
pub open spec fn flag_name(rule: Rule) -> Seq<char> {
    match rule {
        Rule::method_flag => "-X/--request"@,
        Rule::header_flag => "-H/--header"@,
        Rule::data_flag => "-d/--data"@,
        _ => Seq::empty(),
    }
}

/// The request after one child of the command was visited.
pub open spec fn visit(m: RequestModel, child: Node) -> Result<RequestModel, Failure> {
    match child.rule {
        Rule::url => Ok(with_url(m, child.text)),
        Rule::method_flag | Rule::header_flag | Rule::data_flag => if child.inner.len() == 0 {
            Err(Failure::MissingValue(flag_name(child.rule)))
        } else {
            let text = child.inner[0].text;
            Ok(
                match child.rule {
                    Rule::method_flag => with_method(m, uppercase(unquoted(text))),
                    Rule::header_flag => with_header(m, text),
                    _ => with_data(m, text),
                },
            )
        },
        _ => Ok(m),
    }
}

/// The request after the children were visited from first to last, or the first failure.
pub open spec fn visit_all(m: RequestModel, children: Seq<Node>) -> Result<RequestModel, Failure>
    decreases children.len(),
{
    if children.len() == 0 {
        Ok(m)
    } else {
        match visit(m, children[0]) {
            Ok(next) => visit_all(next, children.drop_first()),
            Err(e) => Err(e),
        }
    }
}

/// What is handed out when the walk is over: the request, if it has a URL.
pub open spec fn finished(m: RequestModel) -> Result<RequestModel, Failure> {
    if m.url.len() == 0 {
        Err(Failure::MissingUrl)
    } else {
        Ok(m)
    }
}

/// The request that a parse tree describes. Only the children of a command are visited.
pub open spec fn extracted(root: Node) -> Result<RequestModel, Failure> {
    let children = if root.rule == Rule::curl {
        root.inner
    } else {
        Seq::empty()
    };
    match visit_all(empty_request(), children) {
        Ok(m) => finished(m),
        Err(e) => Err(e),
    }
}

/// The request that a text describes.
pub open spec fn parse_spec(input: Seq<char>) -> Result<RequestModel, Failure> {
    match command(input) {
        Ok(root) => extracted(root),
        Err(e) => Err(Failure::Syntax(e)),
    }
}

/// What holds of a request all through the walk of a tree: all that makes a request valid
/// but the URL, which may still be missing.
pub open spec fn well_collected(m: RequestModel) -> bool {
    &&& m.method.len() == 0 || is_uppercased(m.method)
    &&& distinct_names(m.headers)
    &&& trimmed_entries(m.headers)
}

/// A visit keeps what was collected well collected.
pub proof fn lemma_visit_keeps(m: RequestModel, child: Node)
    requires
        well_collected(m),
    ensures
        visit(m, child) matches Ok(next) ==> well_collected(next),
{
    if child.inner.len() > 0 {
        let text = child.inner[0].text;
        if child.rule == Rule::method_flag {
            assert(is_uppercased(uppercase(unquoted(text))));
        }
        if child.rule == Rule::header_flag {
            lemma_header_parts_trimmed(unquoted(text));
            match header_parts(unquoted(text)) {
                Some((name, value)) => {
                    lemma_upsert_distinct(m.headers, name, value);
                    lemma_find_name(m.headers, name, 0);
                },
                None => {},
            }
        }
    }
}

/// A walk keeps what was collected well collected.
pub proof fn lemma_visit_all_keeps(m: RequestModel, children: Seq<Node>)
    requires
        well_collected(m),
    ensures
        visit_all(m, children) matches Ok(last) ==> well_collected(last),
    decreases children.len(),
{
    if children.len() > 0 {
        lemma_visit_keeps(m, children[0]);
        match visit(m, children[0]) {
            Ok(next) => {
                lemma_visit_all_keeps(next, children.drop_first());
            },
            Err(_) => {},
        }
    }
}

/// A request that a tree gives is valid, whatever the tree.
pub proof fn lemma_extracted_valid(root: Node)
    ensures
        extracted(root) matches Ok(m) ==> m.is_valid(),
{
    let children = if root.rule == Rule::curl {
        root.inner
    } else {
        Seq::empty()
    };
    lemma_visit_all_keeps(empty_request(), children);
}

/// Collects the parts of a request while the tree is walked.
pub struct Extractor {
    method: String,
    url: String,
    headers: Headers,
    body: String,
}

impl View for Extractor {
    type V = RequestModel;

    closed spec fn view(&self) -> RequestModel {
        RequestModel {
            method: self.method@,
            url: self.url@,
            headers: self.headers@,
            body: self.body@,
        }
    }
}

/// The text of the value of a flag, if it has one.
fn value_text<'i>(flag: &Pair<'i>) -> (r: Option<&'i str>)
    ensures
        match r {
            Some(text) => flag@.inner.len() > 0 && text@ == flag@.inner[0].text,
            None => flag@.inner.len() == 0,
        },
{
    let inner = flag.inner();
    if inner.len() == 0 {
        None
    } else {
        Some(inner[0].as_str())
    }
}

impl Extractor {
    /// Starts with nothing collected.
    pub fn new() -> (r: Self)
        ensures
            r@ == empty_request(),
    {
        Extractor {
            method: String::new(),
            url: String::new(),
            headers: Headers::new(),
            body: String::new(),
        }
    }

    /// Takes the text of a URL token.
    pub fn take_url(&mut self, text: &str)
        ensures
            final(self)@ == with_url(old(self)@, text@),
    {
        if self.url.as_str().is_empty() {
            self.url = strip_quotes(text).to_owned();
        }
    }

    /// Takes a method that is in uppercase already.
    pub fn take_method(&mut self, upper: String)
        ensures
            final(self)@ == with_method(old(self)@, upper@),
    {
        self.method = upper;
    }

    /// Takes the text of the value of a header flag.
    pub fn take_header(&mut self, text: &str)
        ensures
            final(self)@ == with_header(old(self)@, text@),
    {
        match split_header(strip_quotes(text)) {
            Some((name, value)) => {
                self.headers.insert(name, value);
            },
            None => {},
        }
    }

    /// Takes the text of the value of a data flag.
    pub fn take_data(&mut self, text: &str)
        ensures
            final(self)@ == with_data(old(self)@, text@),
    {
        self.body = strip_quotes(text).to_owned();
    }

    /// Visits one child of a command. A flag without a value is an error, and then nothing
    /// is taken.
    pub fn visit(&mut self, child: &Pair) -> (r: Result<(), ParseError>)
        ensures
            match r {
                Ok(_) => visit(old(self)@, child@) == Ok::<RequestModel, Failure>(final(self)@),
                Err(e) => {
                    &&& visit(old(self)@, child@) == Err::<RequestModel, Failure>(e@)
                    &&& final(self)@ == old(self)@
                },
            },
    {
        match child.as_rule() {
            Rule::url => {
                self.take_url(child.as_str());
                Ok(())
            },
            Rule::method_flag => match value_text(child) {
                Some(text) => {
                    self.take_method(strip_quotes(text).to_uppercase());
                    Ok(())
                },
                None => Err(ParseError::MissingValue("-X/--request")),
            },
            Rule::header_flag => match value_text(child) {
                Some(text) => {
                    self.take_header(text);
                    Ok(())
                },
                None => Err(ParseError::MissingValue("-H/--header")),
            },
            Rule::data_flag => match value_text(child) {
                Some(text) => {
                    self.take_data(text);
                    Ok(())
                },
                None => Err(ParseError::MissingValue("-d/--data")),
            },
            _ => Ok(()),
        }
    }

    /// Ends the walk: hands out the request, or reports that it has no URL.
    pub fn finish(self) -> (r: Result<CurlRequest, ParseError>)
        ensures
            outcome(r) == finished(self@),
    {
        if self.url.as_str().is_empty() {
            Err(ParseError::MissingUrl)
        } else {
            Ok(
                CurlRequest {
                    method: self.method,
                    url: self.url,
                    headers: self.headers,
                    body: self.body,
                },
            )
        }
    }
}

/// Walks the children of a command from first to last and collects the request.
pub fn extract(root: &Pair) -> (r: Result<CurlRequest, ParseError>)
    ensures
        outcome(r) == extracted(root@),
        r matches Ok(request) ==> request@.is_valid(),
{
    proof {
        lemma_extracted_valid(root@);
    }
    let mut acc = Extractor::new();
    if root.as_rule() == Rule::curl {
        let children = root.inner();
        let n = children.len();
        let mut i: usize = 0;
        assert(root@.inner.skip(0) =~= root@.inner);
        while i < n
            invariant
                i <= n == children@.len(),
                root@.rule == Rule::curl,
                views(children@) == root@.inner,
                visit_all(empty_request(), root@.inner) == visit_all(
                    acc@,
                    root@.inner.skip(i as int),
                ),
            decreases n - i,
        {
            let ghost rest = root@.inner.skip(i as int);
            assert(rest.drop_first() =~= root@.inner.skip(i + 1));
            match acc.visit(&children[i]) {
                Ok(_) => {},
                Err(e) => {
                    return Err(e);
                },
            }
            i += 1;
        }
    }
    acc.finish()
}

impl CurlRequest {
    /// Parses a curl command line.
    ///
    /// The text is matched against the grammar as a whole command; the tree is then walked
    /// and the request collected. Any failure is returned, and then there is no request.
    pub fn parse_input(input: &str) -> (r: Result<CurlRequest, ParseError>)
        ensures
            outcome(r) == parse_spec(input@),
            r matches Ok(request) ==> request@.is_valid(),
    {
        match CurlParser::parse(Rule::curl, input) {
            Ok(root) => extract(&root),
            Err(e) => Err(ParseError::Syntax(e)),
        }
    }
}

} // verus!
