//! The parser: matches a text against the grammar and builds the parse tree.

use vstd::prelude::*;
use crate::chars::{is_quote, is_space, is_whitespace, skip_space, skip_space_in, to_chars};
use crate::chars::lemma_skip_space;
use crate::grammar::{bare_end, command, find_close, flag_at, flag_rule, item_at, items_from};
use crate::grammar::{match_rule, node, quoted_end, url_at, value_at, value_end, value_node};
use crate::grammar::{lemma_item_span, lemma_value_end, Mismatch, Node, Rule};

verus! {

/// A text does not match a rule: the place of the first mismatch, counted in characters,
/// and the rule that was expected there.
#[derive(Clone, Copy, Debug, PartialEq, Eq, Structural)]
pub struct SyntaxError {
    pub position: usize,
    pub expected: Rule,
}

impl View for SyntaxError {
    type V = Mismatch;

    open spec fn view(&self) -> Mismatch {
        Mismatch { position: self.position as int, expected: self.expected }
    }
}

/// A node of the parse tree over the input it was matched in.
#[derive(Debug)]
pub struct Pair<'i> {
    input: &'i str,
    rule: Rule,
    start: usize,
    end: usize,
    inner: Vec<Pair<'i>>,
}

impl<'i> View for Pair<'i> {
    type V = Node;

    closed spec fn view(&self) -> Node {
        tree(*self)
    }
}

/// The tree below a pair.
spec fn tree<'i>(pair: Pair<'i>) -> Node
    decreases pair,
{
    Node {
        rule: pair.rule,
        start: pair.start as int,
        end: pair.end as int,
        text: pair.input@.subrange(pair.start as int, pair.end as int),
        inner: trees(pair.inner@),
    }
}

/// The trees below a list of pairs.
spec fn trees<'i>(pairs: Seq<Pair<'i>>) -> Seq<Node>
    decreases pairs,
{
    if pairs.len() == 0 {
        Seq::empty()
    } else {
        trees(pairs.drop_last()).push(tree(pairs.last()))
    }
}

/// `trees` takes the tree of each pair.
proof fn lemma_trees<'i>(pairs: Seq<Pair<'i>>)
    ensures
        trees(pairs) =~= views(pairs),
    decreases pairs.len(),
{
    if pairs.len() > 0 {
        lemma_trees(pairs.drop_last());
    }
}

/// The nodes that a list of pairs stands for.
pub open spec fn views<'i>(pairs: Seq<Pair<'i>>) -> Seq<Node> {
    Seq::new(pairs.len(), |k: int| pairs[k]@)
}

/// The node that an optional pair stands for.
pub open spec fn pair_view<'i>(r: Option<Pair<'i>>) -> Option<Node> {
    match r {
        Some(pair) => Some(pair@),
        None => None,
    }
}

/// What the result of a parse stands for.
pub open spec fn parsed<'i>(r: Result<Pair<'i>, SyntaxError>) -> Result<Node, Mismatch> {
    match r {
        Ok(pair) => Ok(pair@),
        Err(e) => Err(e@),
    }
}

impl<'i> Pair<'i> {
    #[verifier::type_invariant]
    spec fn within_input(&self) -> bool {
        self.start <= self.end <= self.input@.len()
    }

    fn new(input: &'i str, rule: Rule, start: usize, end: usize, inner: Vec<Pair<'i>>) -> (r: Self)
        requires
            start <= end <= input@.len(),
        ensures
            r@ == node(rule, input@, start as int, end as int, views(inner@)),
            inner@.len() == 0 ==> r@ == node(
                rule,
                input@,
                start as int,
                end as int,
                Seq::<Node>::empty(),
            ),
    {
        let r = Pair { input, rule, start, end, inner };
        proof {
            lemma_trees(inner@);
            if inner@.len() == 0 {
                assert(views(inner@) =~= Seq::<Node>::empty());
            }
        }
        r
    }

    /// The rule that matched.
    pub fn as_rule(&self) -> (r: Rule)
        ensures
            r == self@.rule,
    {
        self.rule
    }

    /// The index of the first character that the rule matched.
    pub fn start(&self) -> (r: usize)
        ensures
            r == self@.start,
    {
        self.start
    }

    /// One past the index of the last character that the rule matched.
    pub fn end(&self) -> (r: usize)
        ensures
            r == self@.end,
    {
        self.end
    }

    /// The text that the rule matched.
    pub fn as_str(&self) -> (r: &'i str)
        ensures
            r@ == self@.text,
    {
        proof {
            use_type_invariant(self);
        }
        self.input.substring_char(self.start, self.end)
    }

    /// The pairs of the rules that matched inside this one, in the order of the text.
    pub fn inner(&self) -> (r: &Vec<Pair<'i>>)
        ensures
            views(r@) == self@.inner,
    {
        proof {
            lemma_trees(self.inner@);
        }
        &self.inner
    }
}

/// Finds the end of the quoted string that starts at `i`.
fn scan_quoted(chars: &Vec<char>, i: usize) -> (r: Option<usize>)
    ensures
        match r {
            Some(e) => quoted_end(chars@, i as int) == Some(e as int),
            None => quoted_end(chars@, i as int) is None,
        },
{
    let n = chars.len();
    if i >= n {
        return None;
    }
    let q = chars[i];
    if q != '"' && q != '\'' {
        return None;
    }
    let mut j: usize = i + 1;
    while j < n
        invariant
            i < j <= n == chars@.len(),
            q == chars@[i as int],
            is_quote(q),
            find_close(chars@, i as int, i + 1) == find_close(chars@, i as int, j as int),
        decreases n - j,
    {
        if chars[j] == q && chars[j - 1] != '\\' {
            return Some(j + 1);
        }
        j += 1;
    }
    None
}

/// Finds the end of the bare word that starts at `i`.
fn scan_bare(chars: &Vec<char>, i: usize) -> (r: usize)
    requires
        i <= chars@.len(),
    ensures
        r == bare_end(chars@, i as int),
        i <= r <= chars@.len(),
{
    let n = chars.len();
    let mut j: usize = i;
    while j < n && !is_space(chars[j])
        invariant
            i <= j <= n == chars@.len(),
            bare_end(chars@, i as int) == bare_end(chars@, j as int),
        decreases n - j,
    {
        j += 1;
    }
    j
}

/// Finds the end of the value that starts at `i`.
fn scan_value(chars: &Vec<char>, i: usize) -> (r: Option<usize>)
    ensures
        match r {
            Some(e) => value_end(chars@, i as int) == Some(e as int) && i < e <= chars@.len(),
            None => value_end(chars@, i as int) is None,
        },
{
    proof {
        lemma_value_end(chars@, i as int);
    }
    if i >= chars.len() || is_space(chars[i]) {
        return None;
    }
    match scan_quoted(chars, i) {
        Some(e) => Some(e),
        None => Some(scan_bare(chars, i)),
    }
}

/// Whether `chars[start..end]` spells `word`.
fn word_is(chars: &Vec<char>, start: usize, end: usize, word: &str) -> (r: bool)
    requires
        start <= end <= chars@.len(),
    ensures
        r == (chars@.subrange(start as int, end as int) == word@),
{
    let n = word.unicode_len();
    if end - start != n {
        return false;
    }
    let mut k: usize = 0;
    while k < n
        invariant
            start <= end <= chars@.len(),
            n == end - start,
            n == word@.len(),
            k <= n,
            forall|j: int| 0 <= j < k ==> chars@[start + j] == word@[j],
        decreases n - k,
    {
        if chars[start + k] != word.get_char(k) {
            assert(chars@.subrange(start as int, end as int)[k as int] != word@[k as int]);
            return false;
        }
        k += 1;
    }
    assert(chars@.subrange(start as int, end as int) =~= word@);
    true
}

/// The flag that `chars[start..end]` spells.
fn flag_of(chars: &Vec<char>, start: usize, end: usize) -> (r: Option<Rule>)
    requires
        start <= end <= chars@.len(),
    ensures
        r == flag_rule(chars@.subrange(start as int, end as int)),
{
    if word_is(chars, start, end, "-X") || word_is(chars, start, end, "--request") {
        Some(Rule::method_flag)
    } else if word_is(chars, start, end, "-H") || word_is(chars, start, end, "--header") {
        Some(Rule::header_flag)
    } else if word_is(chars, start, end, "-d") || word_is(chars, start, end, "--data") {
        Some(Rule::data_flag)
    } else {
        None
    }
}

/// Matches a value at `i`.
fn value_pair<'i>(input: &'i str, chars: &Vec<char>, i: usize) -> (r: Option<Pair<'i>>)
    requires
        chars@ == input@,
    ensures
        pair_view(r) == value_at(input@, i as int),
{
    match scan_value(chars, i) {
        Some(e) => Some(Pair::new(input, Rule::value, i, e, Vec::new())),
        None => None,
    }
}

/// Matches a URL at `i`.
fn url_pair<'i>(input: &'i str, chars: &Vec<char>, i: usize) -> (r: Option<Pair<'i>>)
    requires
        chars@ == input@,
    ensures
        pair_view(r) == url_at(input@, i as int),
{
    match scan_value(chars, i) {
        Some(e) => {
            let mut inner: Vec<Pair<'i>> = Vec::new();
            inner.push(Pair::new(input, Rule::value, i, e, Vec::new()));
            assert(views(inner@) =~= seq![value_node(input@, i as int, e as int)]);
            Some(Pair::new(input, Rule::url, i, e, inner))
        },
        None => None,
    }
}

/// Matches a flag at `i`.
fn flag_pair<'i>(input: &'i str, chars: &Vec<char>, i: usize) -> (r: Option<Pair<'i>>)
    requires
        chars@ == input@,
    ensures
        pair_view(r) == flag_at(input@, i as int),
{
    let n = chars.len();
    if i >= n {
        return None;
    }
    let word_end = scan_bare(chars, i);
    match flag_of(chars, i, word_end) {
        Some(rule) => {
            let v = skip_space_in(chars, word_end, n);
            match scan_value(chars, v) {
                Some(e) => {
                    let mut inner: Vec<Pair<'i>> = Vec::new();
                    inner.push(Pair::new(input, Rule::value, v, e, Vec::new()));
                    assert(views(inner@) =~= seq![value_node(input@, v as int, e as int)]);
                    Some(Pair::new(input, rule, i, e, inner))
                },
                None => Some(Pair::new(input, rule, i, word_end, Vec::new())),
            }
        },
        None => None,
    }
}

/// Matches a flag or else a URL at `i`.
fn item_pair<'i>(input: &'i str, chars: &Vec<char>, i: usize) -> (r: Option<Pair<'i>>)
    requires
        chars@ == input@,
    ensures
        pair_view(r) == item_at(input@, i as int),
{
    match flag_pair(input, chars, i) {
        Some(pair) => Some(pair),
        None => url_pair(input, chars, i),
    }
}

/// The items that were matched so far, followed by those still to come.
spec fn followed_by(done: Seq<Node>, rest: Result<Seq<Node>, Mismatch>) -> Result<
    Seq<Node>,
    Mismatch,
> {
    match rest {
        Ok(nodes) => Ok(done + nodes),
        Err(e) => Err(e),
    }
}

/// Skipping whitespace twice is skipping it once.
proof fn lemma_skip_space_twice(s: Seq<char>, lo: int, hi: int)
    requires
        lo <= hi,
    ensures
        skip_space(s, skip_space(s, lo, hi), hi) == skip_space(s, lo, hi),
    decreases hi - lo,
{
    if lo < hi && is_whitespace(s[lo]) {
        lemma_skip_space_twice(s, lo + 1, hi);
    }
}

/// Matches the items from `from` to the end of the input.
fn items<'i>(input: &'i str, chars: &Vec<char>, from: usize) -> (r: Result<
    Vec<Pair<'i>>,
    SyntaxError,
>)
    requires
        chars@ == input@,
        from <= chars@.len(),
    ensures
        match r {
            Ok(pairs) => items_from(input@, from as int) == Ok::<Seq<Node>, Mismatch>(
                views(pairs@),
            ),
            Err(e) => items_from(input@, from as int) == Err::<Seq<Node>, Mismatch>(e@),
        },
{
    let n = chars.len();
    let mut out: Vec<Pair<'i>> = Vec::new();
    let mut p = skip_space_in(chars, from, n);
    proof {
        lemma_skip_space_twice(input@, from as int, n as int);
    }
    while p < n
        invariant
            chars@ == input@,
            n == chars@.len(),
            p <= n,
            p == skip_space(input@, p as int, n as int),
            items_from(input@, from as int) == followed_by(
                views(out@),
                items_from(input@, p as int),
            ),
        decreases n - p,
    {
        let ghost done = views(out@);
        proof {
            lemma_skip_space(input@, p as int, n as int);
            lemma_item_span(input@, p as int);
        }
        let found = item_pair(input, chars, p);
        let pair = found.unwrap();
        let end = pair.end();
        if end < n && !is_space(chars[end]) {
            return Err(SyntaxError { position: end, expected: Rule::EOI });
        }
        let ghost item = pair@;
        out.push(pair);
        p = skip_space_in(chars, end, n);
        proof {
            lemma_skip_space_twice(input@, end as int, n as int);
            assert(items_from(input@, end as int) == items_from(input@, p as int));
            match items_from(input@, p as int) {
                Ok(rest) => {
                    assert(done + (seq![item] + rest) =~= views(out@) + rest);
                },
                Err(_) => {},
            }
        }
    }
    proof {
        lemma_item_span(input@, p as int);
    }
    Ok(out)
}

/// Matches a whole command line.
fn command_pair<'i>(input: &'i str, chars: &Vec<char>) -> (r: Result<Pair<'i>, SyntaxError>)
    requires
        chars@ == input@,
    ensures
        parsed(r) == command(input@),
{
    let n = chars.len();
    let p = skip_space_in(chars, 0, n);
    let word_end = scan_bare(chars, p);
    let from = if word_is(chars, p, word_end, "curl") {
        word_end
    } else {
        p
    };
    match items(input, chars, from) {
        Ok(inner) => Ok(Pair::new(input, Rule::curl, 0, n, inner)),
        Err(e) => Err(e),
    }
}

/// The parser of curl command lines.
pub struct CurlParser;

impl CurlParser {
    /// Matches `rule` at the start of `input` and returns the tree of what it matched.
    ///
    /// `Rule::curl` has to match the whole input; every other rule may leave a rest.
    pub fn parse<'i>(rule: Rule, input: &'i str) -> (r: Result<Pair<'i>, SyntaxError>)
        ensures
            parsed(r) == match_rule(rule, input@),
    {
        let chars = to_chars(input);
        let found = match rule {
            Rule::curl => {
                return command_pair(input, &chars);
            },
            Rule::EOI => if chars.len() == 0 {
                Some(Pair::new(input, Rule::EOI, 0, 0, Vec::new()))
            } else {
                None
            },
            Rule::option => flag_pair(input, &chars, 0),
            Rule::method_flag | Rule::header_flag | Rule::data_flag => match flag_pair(
                input,
                &chars,
                0,
            ) {
                Some(pair) => if pair.as_rule() == rule {
                    Some(pair)
                } else {
                    None
                },
                None => None,
            },
            Rule::url => url_pair(input, &chars, 0),
            Rule::value => value_pair(input, &chars, 0),
        };
        match found {
            Some(pair) => Ok(pair),
            None => Err(SyntaxError { position: 0, expected: rule }),
        }
    }
}

} // verus!
