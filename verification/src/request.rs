//! The request model: what a curl command line asks for.

use vstd::prelude::*;
use crate::chars::{is_trimmed, uppercase};

verus! {

/// Header entries as mathematical values: name and value, in the order in which the names
/// first came.
pub type Entries = Seq<(Seq<char>, Seq<char>)>;

/// The first index at or after `from` of the entry called `name`.
pub open spec fn find_name(entries: Entries, name: Seq<char>, from: int) -> Option<int>
    decreases entries.len() - from,
{
    if from >= entries.len() {
        None
    } else if entries[from].0 == name {
        Some(from)
    } else {
        find_name(entries, name, from + 1)
    }
}

/// The value of the header called `name`.
pub open spec fn lookup(entries: Entries, name: Seq<char>) -> Option<Seq<char>> {
    match find_name(entries, name, 0) {
        Some(i) => Some(entries[i].1),
        None => None,
    }
}

/// `entries` after `name` was set to `value`: the value of an entry of that name is
/// replaced where it stands, otherwise a new entry comes last.
pub open spec fn upsert(entries: Entries, name: Seq<char>, value: Seq<char>) -> Entries {
    match find_name(entries, name, 0) {
        Some(i) => entries.update(i, (name, value)),
        None => entries.push((name, value)),
    }
}

/// No two entries have the same name.
pub open spec fn distinct_names(entries: Entries) -> bool {
    forall|i: int, j: int| 0 <= i < j < entries.len() ==> entries[i].0 != entries[j].0
}

/// The mapping from name to value that the entries stand for.
pub open spec fn as_map(entries: Entries) -> Map<Seq<char>, Seq<char>> {
    Map::new(
        |name: Seq<char>| lookup(entries, name) is Some,
        |name: Seq<char>| lookup(entries, name)->Some_0,
    )
}

/// `find_name` finds the first entry of that name.
pub proof fn lemma_find_name(entries: Entries, name: Seq<char>, from: int)
    requires
        0 <= from,
    ensures
        match find_name(entries, name, from) {
            Some(i) => from <= i < entries.len() && entries[i].0 == name && forall|j: int|
                from <= j < i ==> entries[j].0 != name,
            None => forall|j: int| from <= j < entries.len() ==> entries[j].0 != name,
        },
    decreases entries.len() - from,
{
    if from < entries.len() && entries[from].0 != name {
        lemma_find_name(entries, name, from + 1);
    }
}

/// Setting a header keeps the names distinct.
pub proof fn lemma_upsert_distinct(entries: Entries, name: Seq<char>, value: Seq<char>)
    requires
        distinct_names(entries),
    ensures
        distinct_names(upsert(entries, name, value)),
{
    lemma_find_name(entries, name, 0);
}

/// Setting a header makes it the value of its name and leaves every other name alone:
/// the last value set for a name is the one that is found.
pub proof fn lemma_upsert_lookup(
    entries: Entries,
    name: Seq<char>,
    value: Seq<char>,
    other: Seq<char>,
)
    ensures
        lookup(upsert(entries, name, value), name) == Some(value),
        other != name ==> lookup(upsert(entries, name, value), other) == lookup(entries, other),
{
    let after = upsert(entries, name, value);
    let at = match find_name(entries, name, 0) {
        Some(i) => i,
        None => entries.len() as int,
    };
    lemma_find_name(entries, name, 0);
    lemma_find_name(after, name, 0);
    lemma_find_name(entries, other, 0);
    lemma_find_name(after, other, 0);
    assert(after[at] == (name, value));
    assert forall|j: int| 0 <= j < after.len() && j != at implies after[j] == entries[j] by {}
}

/// As a mapping, setting a header is inserting into the map.
pub proof fn lemma_upsert_as_map(entries: Entries, name: Seq<char>, value: Seq<char>)
    ensures
        as_map(upsert(entries, name, value)) == as_map(entries).insert(name, value),
{
    let after = upsert(entries, name, value);
    assert forall|other: Seq<char>|
        lookup(after, other) == (if other == name {
            Some(value)
        } else {
            lookup(entries, other)
        }) by {
        lemma_upsert_lookup(entries, name, value, other);
    }
}

/// The headers of a request: values by name, each name once.
#[derive(Debug)]
pub struct Headers {
    entries: Vec<(String, String)>,
}

impl View for Headers {
    type V = Entries;

    closed spec fn view(&self) -> Entries {
        texts(self.entries@)
    }
}

/// The entries that a list of strings stands for.
spec fn texts(entries: Seq<(String, String)>) -> Entries {
    Seq::new(entries.len(), |k: int| (entries[k].0@, entries[k].1@))
}

impl Headers {
    #[verifier::type_invariant]
    spec fn each_name_once(&self) -> bool {
        distinct_names(self@)
    }

    /// No headers.
    pub fn new() -> (r: Self)
        ensures
            r@ == Entries::empty(),
            distinct_names(r@),
    {
        let r = Headers { entries: Vec::new() };
        r
    }

    /// The number of headers. Their names are distinct.
    pub fn len(&self) -> (r: usize)
        ensures
            r == self@.len(),
            distinct_names(self@),
    {
        proof {
            use_type_invariant(self);
        }
        self.entries.len()
    }

    /// Whether there is no header.
    pub fn is_empty(&self) -> (r: bool)
        ensures
            r == (self@.len() == 0),
    {
        self.entries.len() == 0
    }

    fn position(&self, name: &String) -> (r: Option<usize>)
        ensures
            match r {
                Some(i) => find_name(self@, name@, 0) == Some(i as int) && i < self@.len(),
                None => find_name(self@, name@, 0) is None,
            },
    {
        let n = self.entries.len();
        let mut i: usize = 0;
        while i < n
            invariant
                i <= n == self@.len(),
                n == self.entries@.len(),
                find_name(self@, name@, 0) == find_name(self@, name@, i as int),
            decreases n - i,
        {
            if self.entries[i].0 == *name {
                return Some(i);
            }
            i += 1;
        }
        None
    }

    /// Sets the header `name` to `value`. A header of that name keeps its place and gets
    /// the new value.
    pub fn insert(&mut self, name: String, value: String)
        ensures
            final(self)@ == upsert(old(self)@, name@, value@),
            distinct_names(final(self)@),
    {
        proof {
            use_type_invariant(&*self);
            lemma_upsert_distinct(self@, name@, value@);
        }
        let ghost after = upsert(self@, name@, value@);
        let found = self.position(&name);
        let mut entries: Vec<(String, String)> = Vec::new();
        core::mem::swap(&mut entries, &mut self.entries);
        match found {
            Some(i) => {
                entries.set(i, (name, value));
            },
            None => {
                entries.push((name, value));
            },
        }
        assert(texts(entries@) =~= after);
        core::mem::swap(&mut entries, &mut self.entries);
    }

    /// The value of the header `name`.
    pub fn get(&self, name: &str) -> (r: Option<&String>)
        ensures
            match r {
                Some(value) => lookup(self@, name@) == Some(value@),
                None => lookup(self@, name@) is None,
            },
    {
        let key = name.to_owned();
        match self.position(&key) {
            Some(i) => Some(&self.entries[i].1),
            None => None,
        }
    }

    /// Whether there is a header `name`.
    pub fn contains_key(&self, name: &str) -> (r: bool)
        ensures
            r == lookup(self@, name@) is Some,
    {
        let key = name.to_owned();
        self.position(&key).is_some()
    }

    /// The name of the header at `index`, counted in the order in which the names first came.
    pub fn name_at(&self, index: usize) -> (r: &String)
        requires
            index < self@.len(),
        ensures
            r@ == self@[index as int].0,
    {
        &self.entries[index].0
    }

    /// The value of the header at `index`.
    pub fn value_at(&self, index: usize) -> (r: &String)
        requires
            index < self@.len(),
        ensures
            r@ == self@[index as int].1,
    {
        &self.entries[index].1
    }
}

/// A request as a mathematical value.
#[verifier::ext_equal]
pub struct RequestModel {
    pub method: Seq<char>,
    pub url: Seq<char>,
    pub headers: Entries,
    pub body: Seq<char>,
}

/// Whether `s` is the uppercase form of some text.
pub open spec fn is_uppercased(s: Seq<char>) -> bool {
    exists|raw: Seq<char>| s == uppercase(raw)
}

/// No entry has whitespace at either end of its name or of its value.
pub open spec fn trimmed_entries(entries: Entries) -> bool {
    forall|i: int|
        0 <= i < entries.len() ==> is_trimmed((#[trigger] entries[i]).0) && is_trimmed(
            entries[i].1,
        )
}

impl RequestModel {
    /// What holds of every request that parsing hands out: it has a URL, its method is
    /// empty or in uppercase, and each header name occurs once, with no whitespace around
    /// it or around its value.
    pub open spec fn is_valid(self) -> bool {
        &&& self.url.len() > 0
        &&& self.method.len() == 0 || is_uppercased(self.method)
        &&& distinct_names(self.headers)
        &&& trimmed_entries(self.headers)
    }
}

/// The lines that list the headers, one header a line.
pub open spec fn header_lines(headers: Entries) -> Seq<char>
    decreases headers.len(),
{
    if headers.len() == 0 {
        Seq::empty()
    } else {
        header_lines(headers.drop_last()) + "  "@ + headers.last().0 + ": "@ + headers.last().1
            + "\n"@
    }
}

/// The text that shows a request.
pub open spec fn rendering(m: RequestModel) -> Seq<char> {
    "method: "@ + m.method + "\n"@ + "url: "@ + m.url + "\n"@ + "headers:\n"@ + header_lines(
        m.headers,
    ) + "body:\n"@ + m.body + "\n"@
}

/// What a curl command line asks for.
#[derive(Debug)]
pub struct CurlRequest {
    /// The HTTP method in uppercase; empty if the command names none.
    pub method: String,
    /// The URL. A request that was parsed has one.
    pub url: String,
    /// The headers by name.
    pub headers: Headers,
    /// The body; empty if the command gives none.
    pub body: String,
}

impl View for CurlRequest {
    type V = RequestModel;

    open spec fn view(&self) -> RequestModel {
        RequestModel {
            method: self.method@,
            url: self.url@,
            headers: self.headers@,
            body: self.body@,
        }
    }
}

impl CurlRequest {
    /// Shows the request as text: method, URL, headers one a line, and body.
    pub fn render(&self) -> (r: String)
        ensures
            r@ == rendering(self@),
    {
        let mut out = String::new();
        out.append("method: ");
        out.append(self.method.as_str());
        out.append("\n");
        out.append("url: ");
        out.append(self.url.as_str());
        out.append("\n");
        out.append("headers:\n");
        let ghost head = out@;
        let n = self.headers.len();
        let mut i: usize = 0;
        while i < n
            invariant
                i <= n == self.headers@.len(),
                out@ == head + header_lines(self.headers@.take(i as int)),
            decreases n - i,
        {
            let ghost done = self.headers@.take(i as int);
            let ghost next = self.headers@.take(i + 1);
            assert(next.drop_last() =~= done);
            out.append("  ");
            out.append(self.headers.name_at(i).as_str());
            out.append(": ");
            out.append(self.headers.value_at(i).as_str());
            out.append("\n");
            i += 1;
        }
        assert(self.headers@.take(n as int) =~= self.headers@);
        out.append("body:\n");
        out.append(self.body.as_str());
        out.append("\n");
        out
    }
}

} // verus!
