//! The grammar of a curl command line, as functions on a sequence of characters.
//!
//! ```text
//! command     := ws* ( "curl" )? ( ws+ item | item )* ws*
//! item        := option | url
//! option      := method_flag | header_flag | data_flag
//! method_flag := ( "-X" | "--request" ) ( ws+ value )?
//! header_flag := ( "-H" | "--header" ) ( ws+ value )?
//! data_flag   := ( "-d" | "--data" ) ( ws+ value )?
//! url         := value
//! value       := quoted | bare
//! quoted      := q ( "\" q | any character but q )* q        with q one of " and '
//! bare        := ( any character but whitespace )+
//! ```
//!
//! A choice takes the first alternative that matches, and a repetition takes all it can
//! get. So a value that starts with a quote is the quoted string, if that string is closed,
//! and a bare word otherwise; a backslash before a quote keeps the quote from closing the
//! string and stays in the text.
//!
//! The word of a flag, and the word `curl`, is a whole bare word: `-Xpost` is a URL. Items
//! are kept apart by whitespace: a command in which a quoted string runs into the next
//! character is no command. A flag matches also where the text ends before its value; its
//! node then has no child, and it is left to the reader of the tree to say so.
//!
//! Whitespace is what Unicode calls `White_Space`. Positions count characters.

use vstd::prelude::*;
use crate::chars::{is_quote, is_whitespace, lemma_skip_space, skip_space};

verus! {

/// The syntax categories of the grammar.
#[allow(non_camel_case_types)]
#[derive(Clone, Copy, Debug, PartialEq, Eq, Structural, PartialOrd, Ord, Hash)]
pub enum Rule {
    /// The end of the input.
    EOI,
    /// A whole command line.
    curl,
    /// Any of the three flags. It leaves no node of its own in the tree.
    option,
    /// `-X` or `--request` with its value.
    method_flag,
    /// `-H` or `--header` with its value.
    header_flag,
    /// `-d` or `--data` with its value.
    data_flag,
    /// A token that stands for itself.
    url,
    /// A quoted string or a bare word.
    value,
}

/// A node of the parse tree: the rule that matched, the characters it matched with their
/// place in the input, and the nodes of the rules that matched inside it, in the order of
/// the text.
#[verifier::ext_equal]
pub struct Node {
    pub rule: Rule,
    pub start: int,
    pub end: int,
    pub text: Seq<char>,
    pub inner: Seq<Node>,
}

/// The node of `rule` for the characters `start..end` of `s`.
pub open spec fn node(rule: Rule, s: Seq<char>, start: int, end: int, inner: Seq<Node>) -> Node {
    Node { rule, start, end, text: s.subrange(start, end), inner }
}

/// Where matching stopped, and the rule that would have had to match there.
pub struct Mismatch {
    pub position: int,
    pub expected: Rule,
}

/// Whether the quote at `j` closes the string that the quote at `open` opens: it is the same
/// character and no backslash stands before it.
pub open spec fn closes(s: Seq<char>, open: int, j: int) -> bool {
    open < j < s.len() && s[j] == s[open] && s[j - 1] != '\\'
}

/// The first index at or after `from` that closes the string opened at `open`.
pub open spec fn find_close(s: Seq<char>, open: int, from: int) -> Option<int>
    decreases s.len() - from,
{
    if from >= s.len() {
        None
    } else if closes(s, open, from) {
        Some(from)
    } else {
        find_close(s, open, from + 1)
    }
}

/// The end of the quoted string that starts at `i`: one past its closing quote.
/// `None` if no quote stands at `i` or the string is never closed.
pub open spec fn quoted_end(s: Seq<char>, i: int) -> Option<int> {
    if 0 <= i < s.len() && is_quote(s[i]) {
        match find_close(s, i, i + 1) {
            Some(j) => Some(j + 1),
            None => None,
        }
    } else {
        None
    }
}

/// The end of the run of characters other than whitespace that starts at `i`.
pub open spec fn bare_end(s: Seq<char>, i: int) -> int
    decreases s.len() - i,
{
    if 0 <= i < s.len() && !is_whitespace(s[i]) {
        bare_end(s, i + 1)
    } else {
        i
    }
}

/// The bare word that starts at `i`.
pub open spec fn bare_word(s: Seq<char>, i: int) -> Seq<char> {
    s.subrange(i, bare_end(s, i))
}

/// The end of the value that starts at `i`: of the quoted string there, or else of the bare
/// word. `None` if `i` holds whitespace or lies outside the text.
pub open spec fn value_end(s: Seq<char>, i: int) -> Option<int> {
    if 0 <= i < s.len() && !is_whitespace(s[i]) {
        match quoted_end(s, i) {
            Some(e) => Some(e),
            None => Some(bare_end(s, i)),
        }
    } else {
        None
    }
}

/// The flag that a bare word spells.
pub open spec fn flag_rule(word: Seq<char>) -> Option<Rule> {
    if word == "-X"@ || word == "--request"@ {
        Some(Rule::method_flag)
    } else if word == "-H"@ || word == "--header"@ {
        Some(Rule::header_flag)
    } else if word == "-d"@ || word == "--data"@ {
        Some(Rule::data_flag)
    } else {
        None
    }
}

/// The node of a value that spans `start..end`.
pub open spec fn value_node(s: Seq<char>, start: int, end: int) -> Node {
    node(Rule::value, s, start, end, Seq::empty())
}

/// The value that starts at `i`.
pub open spec fn value_at(s: Seq<char>, i: int) -> Option<Node> {
    match value_end(s, i) {
        Some(e) => Some(value_node(s, i, e)),
        None => None,
    }
}

/// The URL that starts at `i`: a value.
pub open spec fn url_at(s: Seq<char>, i: int) -> Option<Node> {
    match value_end(s, i) {
        Some(e) => Some(node(Rule::url, s, i, e, seq![value_node(s, i, e)])),
        None => None,
    }
}

/// The flag that starts at `i`: a bare word that spells a flag, and the value after the
/// whitespace that follows it. Where the text ends before a value, the node has no child.
pub open spec fn flag_at(s: Seq<char>, i: int) -> Option<Node> {
    if 0 <= i < s.len() {
        match flag_rule(bare_word(s, i)) {
            Some(rule) => {
                let word_end = bare_end(s, i);
                let v = skip_space(s, word_end, s.len() as int);
                match value_end(s, v) {
                    Some(e) => Some(node(rule, s, i, e, seq![value_node(s, v, e)])),
                    None => Some(node(rule, s, i, word_end, Seq::empty())),
                }
            },
            None => None,
        }
    } else {
        None
    }
}

/// The item that starts at `i`: a flag if the word there spells one, else a URL.
pub open spec fn item_at(s: Seq<char>, i: int) -> Option<Node> {
    match flag_at(s, i) {
        Some(node) => Some(node),
        None => url_at(s, i),
    }
}

/// Whether the item that ends at `end` is followed by whitespace or by the end of the text.
pub open spec fn ends_token(s: Seq<char>, end: int) -> bool {
    end >= s.len() || is_whitespace(s[end])
}

/// The items from `i` to the end of the text, or the place where an item runs into the
/// next character with no whitespace between them.
pub open spec fn items_from(s: Seq<char>, i: int) -> Result<Seq<Node>, Mismatch>
    decreases s.len() - i,
    when 0 <= i <= s.len()
    via items_from_decreases
{
    let p = skip_space(s, i, s.len() as int);
    match item_at(s, p) {
        None => Ok(Seq::empty()),
        Some(node) => if !ends_token(s, node.end) {
            Err(Mismatch { position: node.end, expected: Rule::EOI })
        } else {
            match items_from(s, node.end) {
                Ok(rest) => Ok(seq![node] + rest),
                Err(e) => Err(e),
            }
        },
    }
}

#[via_fn]
proof fn items_from_decreases(s: Seq<char>, i: int) {
    let p = skip_space(s, i, s.len() as int);
    lemma_skip_space(s, i, s.len() as int);
    lemma_item_span(s, p);
}

/// Where the items of a command start: after the leading whitespace, and after the word
/// `curl` if the command starts with it.
pub open spec fn command_start(s: Seq<char>) -> int {
    let p = skip_space(s, 0, s.len() as int);
    if bare_word(s, p) == "curl"@ {
        bare_end(s, p)
    } else {
        p
    }
}

/// The tree of a whole command line. Its root spans the whole text.
pub open spec fn command(s: Seq<char>) -> Result<Node, Mismatch> {
    match items_from(s, command_start(s)) {
        Ok(items) => Ok(node(Rule::curl, s, 0, s.len() as int, items)),
        Err(e) => Err(e),
    }
}

/// What was found, or a mismatch at the start of the text that names `rule`.
pub open spec fn expecting(found: Option<Node>, rule: Rule) -> Result<Node, Mismatch> {
    match found {
        Some(node) => Ok(node),
        None => Err(Mismatch { position: 0, expected: rule }),
    }
}

/// What `rule` matches at the start of `s`. Only `Rule::curl` has to match all of `s`.
pub open spec fn match_rule(rule: Rule, s: Seq<char>) -> Result<Node, Mismatch> {
    match rule {
        Rule::curl => command(s),
        Rule::EOI => expecting(
            if s.len() == 0 {
                Some(node(Rule::EOI, s, 0, 0, Seq::empty()))
            } else {
                None
            },
            rule,
        ),
        Rule::option => expecting(flag_at(s, 0), rule),
        Rule::method_flag | Rule::header_flag | Rule::data_flag => expecting(
            match flag_at(s, 0) {
                Some(node) => if node.rule == rule {
                    Some(node)
                } else {
                    None
                },
                None => None,
            },
            rule,
        ),
        Rule::url => expecting(url_at(s, 0), rule),
        Rule::value => expecting(value_at(s, 0), rule),
    }
}

/// Whether `n` holds the characters `n.start..n.end` of `s`, at least one of them, the
/// first of which is no whitespace.
pub open spec fn is_token(n: Node, s: Seq<char>) -> bool {
    &&& 0 <= n.start < n.end <= s.len()
    &&& n.text == s.subrange(n.start, n.end)
    &&& !is_whitespace(s[n.start])
}

/// Whether `n` is the node of a value in `s`.
pub open spec fn is_value(n: Node, s: Seq<char>) -> bool {
    n.rule == Rule::value && is_token(n, s) && n.inner.len() == 0
}

/// Whether `n` is the node of an item in `s`: a URL over the value that it is, or a flag
/// over the value that ends it, if it has one.
pub open spec fn is_item(n: Node, s: Seq<char>) -> bool {
    &&& is_token(n, s)
    &&& match n.rule {
        Rule::url => {
            &&& n.inner.len() == 1
            &&& is_value(n.inner[0], s)
            &&& n.inner[0].start == n.start
            &&& n.inner[0].end == n.end
        },
        Rule::method_flag | Rule::header_flag | Rule::data_flag => {
            ||| n.inner.len() == 0
            ||| {
                &&& n.inner.len() == 1
                &&& is_value(n.inner[0], s)
                &&& n.start < n.inner[0].start
                &&& n.inner[0].end == n.end
            }
        },
        _ => false,
    }
}

/// Whether `items` are items of `s` at or after `from`, each one ending before the next
/// one starts.
pub open spec fn items_in_order(items: Seq<Node>, s: Seq<char>, from: int) -> bool {
    &&& forall|k: int|
        0 <= k < items.len() ==> is_item(#[trigger] items[k], s) && from <= items[k].start
    &&& forall|j: int, k: int|
        0 <= j < k < items.len() ==> (#[trigger] items[j]).end < (#[trigger] items[k]).start
}

/// Whether matching can stop at `position`: a quoted string has just been closed there and
/// what follows is no whitespace.
pub open spec fn is_junction(s: Seq<char>, position: int) -> bool {
    0 < position < s.len() && is_quote(s[position - 1]) && !is_whitespace(s[position])
}

/// `bare_end` stays in the text and moves past a character that is no whitespace.
pub proof fn lemma_bare_end(s: Seq<char>, i: int)
    requires
        0 <= i <= s.len(),
    ensures
        i <= bare_end(s, i) <= s.len(),
        i < s.len() && !is_whitespace(s[i]) ==> i < bare_end(s, i),
        ends_token(s, bare_end(s, i)),
        forall|j: int| i <= j < bare_end(s, i) ==> !is_whitespace(s[j]),
    decreases s.len() - i,
{
    if i < s.len() && !is_whitespace(s[i]) {
        lemma_bare_end(s, i + 1);
    }
}

/// `find_close` finds the first closing quote.
pub proof fn lemma_find_close(s: Seq<char>, open: int, from: int)
    requires
        0 <= open < from,
    ensures
        match find_close(s, open, from) {
            Some(j) => from <= j < s.len() && closes(s, open, j) && forall|k: int|
                from <= k < j ==> !closes(s, open, k),
            None => forall|k: int| from <= k < s.len() ==> !closes(s, open, k),
        },
    decreases s.len() - from,
{
    if from < s.len() && !closes(s, open, from) {
        lemma_find_close(s, open, from + 1);
    }
}

/// A value is not empty and ends in the text. It runs into the next character only behind
/// a closing quote.
pub proof fn lemma_value_end(s: Seq<char>, i: int)
    ensures
        value_end(s, i) is Some <==> 0 <= i < s.len() && !is_whitespace(s[i]),
        value_end(s, i) matches Some(e) ==> i < e <= s.len() && (ends_token(s, e) || is_junction(
            s,
            e,
        )),
{
    if 0 <= i < s.len() {
        lemma_bare_end(s, i);
        if is_quote(s[i]) {
            lemma_find_close(s, i, i + 1);
        }
    }
}

/// An item starts where it is looked for and is an item of the text. There is one
/// wherever a character other than whitespace stands. It runs into the next character only
/// behind a closing quote.
pub proof fn lemma_item_span(s: Seq<char>, i: int)
    ensures
        item_at(s, i) is Some <==> 0 <= i < s.len() && !is_whitespace(s[i]),
        item_at(s, i) matches Some(node) ==> {
            &&& node.start == i
            &&& i < node.end <= s.len()
            &&& is_item(node, s)
            &&& ends_token(s, node.end) || is_junction(s, node.end)
        },
{
    lemma_value_end(s, i);
    if 0 <= i < s.len() {
        lemma_bare_end(s, i);
        let word_end = bare_end(s, i);
        let v = skip_space(s, word_end, s.len() as int);
        lemma_skip_space(s, word_end, s.len() as int);
        lemma_value_end(s, v);
        if is_whitespace(s[i]) {
            assert(bare_word(s, i) =~= Seq::<char>::empty());
            lemma_flag_words();
        }
    }
}

/// The items of a text are items of it and stand in its order, apart from each other.
/// Matching stops only where a quoted string runs into the next character.
pub proof fn lemma_items_from(s: Seq<char>, i: int)
    requires
        0 <= i <= s.len(),
    ensures
        match items_from(s, i) {
            Ok(items) => items_in_order(items, s, i),
            Err(e) => e.expected == Rule::EOI && i < e.position && is_junction(s, e.position),
        },
    decreases s.len() - i,
{
    let p = skip_space(s, i, s.len() as int);
    lemma_skip_space(s, i, s.len() as int);
    lemma_item_span(s, p);
    match item_at(s, p) {
        None => {},
        Some(node) => {
            if ends_token(s, node.end) {
                lemma_items_from(s, node.end);
                match items_from(s, node.end) {
                    Ok(rest) => {
                        let items = seq![node] + rest;
                        assert forall|k: int| 0 <= k < items.len() implies is_item(
                            #[trigger] items[k],
                            s,
                        ) && i <= items[k].start by {
                            if k > 0 {
                                assert(items[k] == rest[k - 1]);
                            }
                        }
                        assert forall|j: int, k: int| 0 <= j < k < items.len() implies (
                        #[trigger] items[j]).end < (#[trigger] items[k]).start by {
                            assert(items[k] == rest[k - 1]);
                            if j > 0 {
                                assert(items[j] == rest[j - 1]);
                            }
                        }
                    },
                    Err(_) => {},
                }
            }
        },
    }
}

/// The tree of a command spans the whole text, and its children are the items of the
/// text in their order. A text is no command only where a quoted string runs into the
/// next character.
pub proof fn lemma_command(s: Seq<char>)
    ensures
        match command(s) {
            Ok(root) => {
                &&& root.rule == Rule::curl
                &&& root.start == 0
                &&& root.end == s.len()
                &&& root.text == s
                &&& items_in_order(root.inner, s, 0)
            },
            Err(e) => e.expected == Rule::EOI && is_junction(s, e.position),
        },
{
    let p = skip_space(s, 0, s.len() as int);
    lemma_skip_space(s, 0, s.len() as int);
    lemma_bare_end(s, p);
    lemma_items_from(s, command_start(s));
}

/// The words that spell a flag, character by character.
pub proof fn lemma_flag_words()
    ensures
        "-X"@ == seq!['-', 'X'],
        "--request"@ == seq!['-', '-', 'r', 'e', 'q', 'u', 'e', 's', 't'],
        "-H"@ == seq!['-', 'H'],
        "--header"@ == seq!['-', '-', 'h', 'e', 'a', 'd', 'e', 'r'],
        "-d"@ == seq!['-', 'd'],
        "--data"@ == seq!['-', '-', 'd', 'a', 't', 'a'],
        "curl"@ == seq!['c', 'u', 'r', 'l'],
        flag_rule(Seq::<char>::empty()) is None,
{
    reveal_strlit("-X");
    reveal_strlit("--request");
    reveal_strlit("-H");
    reveal_strlit("--header");
    reveal_strlit("-d");
    reveal_strlit("--data");
    reveal_strlit("curl");
    assert("-X"@ =~= seq!['-', 'X']);
    assert("--request"@ =~= seq!['-', '-', 'r', 'e', 'q', 'u', 'e', 's', 't']);
    assert("-H"@ =~= seq!['-', 'H']);
    assert("--header"@ =~= seq!['-', '-', 'h', 'e', 'a', 'd', 'e', 'r']);
    assert("-d"@ =~= seq!['-', 'd']);
    assert("--data"@ =~= seq!['-', '-', 'd', 'a', 't', 'a']);
    assert("curl"@ =~= seq!['c', 'u', 'r', 'l']);
}

} // verus!
