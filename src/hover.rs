use vstd::prelude::*;
use crate::dictionary::Docs;
use crate::store::DocumentStore;
use vstd::std_specs::iter::IteratorSpec;

verus! {

broadcast use {vstd::string::axiom_spec_iter, vstd::string::next_postcondition};

/// What `char::is_alphanumeric` says of a character (Unicode's Alphabetic or Numeric).
pub uninterp spec fn alphanumeric(c: char) -> bool;

/// Relies on `char::is_alphanumeric`: its answer depends on the character alone.
#[verifier::external_body]
fn is_alphanumeric(c: char) -> (r: bool)
    ensures
        r == alphanumeric(c),
{
    c.is_alphanumeric()
}

/// A character that may stand inside a lookup key: alphanumeric, `_` or `.`.
pub open spec fn is_word_char(c: char) -> bool {
    alphanumeric(c) || c == '_' || c == '.'
}

fn word_char(c: char) -> (r: bool)
    ensures
        r == is_word_char(c),
{
    c == '_' || c == '.' || is_alphanumeric(c)
}

/// Index of the first `'\n'` at or after `from`, or the length of `t` if there is none.
pub open spec fn next_newline(t: Seq<char>, from: int) -> int
    decreases t.len() - from,
{
    if from >= t.len() {
        t.len() as int
    } else if t[from] == '\n' {
        from
    } else {
        next_newline(t, from + 1)
    }
}

/// Where line `n` of `t` starts: just past the `n`-th newline, or `None` when
/// `t` has fewer than `n` newlines.
pub open spec fn line_start(t: Seq<char>, n: nat) -> Option<int>
    decreases n,
{
    if n == 0 {
        Some(0)
    } else {
        match line_start(t, (n - 1) as nat) {
            Some(s) => if next_newline(t, s) < t.len() {
                Some(next_newline(t, s) + 1)
            } else {
                None
            },
            None => None,
        }
    }
}

/// Line `n` of `t`, split as `str::lines` splits: at `"\n"` or `"\r\n"`, with no
/// line after a final line ending. A line that does not exist is empty.
pub open spec fn line_text(t: Seq<char>, n: nat) -> Seq<char> {
    if line_start(t, n) is Some && line_start(t, n)->0 < t.len() {
        let s = line_start(t, n)->0;
        let e = next_newline(t, s);
        if e < t.len() && e > s && t[e - 1] == '\r' {
            t.subrange(s, e - 1)
        } else {
            t.subrange(s, e)
        }
    } else {
        Seq::empty()
    }
}

/// Left end of the run of word characters that ends at position `c` of `l`.
pub open spec fn run_start(l: Seq<char>, c: int) -> int
    decreases c,
{
    if 0 < c <= l.len() && is_word_char(l[c - 1]) {
        run_start(l, c - 1)
    } else {
        c
    }
}

/// Right end of the run of word characters that starts at position `c` of `l`.
pub open spec fn run_end(l: Seq<char>, c: int) -> int
    decreases l.len() - c,
{
    if 0 <= c < l.len() && is_word_char(l[c]) {
        run_end(l, c + 1)
    } else {
        c
    }
}

/// `w` without one leading and one trailing double quote, where present.
pub open spec fn strip_quotes(w: Seq<char>) -> Seq<char> {
    let w1 = if w.len() > 0 && w[0] == '"' {
        w.drop_first()
    } else {
        w
    };
    if w1.len() > 0 && w1.last() == '"' {
        w1.drop_last()
    } else {
        w1
    }
}

/// The cursor column, moved back to the end of the line when it lies past it.
pub open spec fn clamp_column(l: Seq<char>, column: nat) -> int {
    if column <= l.len() {
        column as int
    } else {
        l.len() as int
    }
}

/// The raw token under the cursor: its start and end columns on the line.
pub open spec fn token_bounds(t: Seq<char>, line: nat, column: nat) -> (int, int) {
    let l = line_text(t, line);
    let c = clamp_column(l, column);
    (run_start(l, c), run_end(l, c))
}

/// The lookup key under the cursor: the raw token without its quotes.
pub open spec fn hover_key(t: Seq<char>, line: nat, column: nat) -> Seq<char> {
    let (a, b) = token_bounds(t, line, column);
    strip_quotes(line_text(t, line).subrange(a, b))
}

/// The answer to a hover query on text `t`: the payload and the start and end
/// columns of the raw token, or `None` for an empty key or a key the dictionary lacks.
pub open spec fn hover_result(
    t: Seq<char>,
    line: nat,
    column: nat,
    dict: Map<Seq<char>, Seq<char>>,
) -> Option<(Seq<char>, int, int)> {
    let key = hover_key(t, line, column);
    if key.len() == 0 || !dict.contains_key(key) {
        None
    } else {
        Some((dict[key], token_bounds(t, line, column).0, token_bounds(t, line, column).1))
    }
}

/// The answer to a hover query on the document `id` of an open-document map.
pub open spec fn store_hover_result(
    files: Map<Seq<char>, Seq<char>>,
    id: Seq<char>,
    line: nat,
    column: nat,
    dict: Map<Seq<char>, Seq<char>>,
) -> Option<(Seq<char>, int, int)> {
    if files.contains_key(id) {
        hover_result(files[id], line, column, dict)
    } else {
        None
    }
}

/// A zero-based line and column in a document.
#[derive(Debug, Clone, Copy, PartialEq, Eq, Structural)]
pub struct Position {
    pub line: usize,
    pub character: usize,
}

/// A hover answer: the markup payload and the range of the token it documents.
#[derive(Debug)]
pub struct HoverInfo {
    pub contents: String,
    pub start: Position,
    pub end: Position,
}

/// `r` is the hover answer that `expected` describes, on line `line`.
pub open spec fn answers(r: Option<HoverInfo>, line: nat, expected: Option<(Seq<char>, int, int)>) -> bool {
    match expected {
        None => r is None,
        Some(e) => r is Some && r->0.contents@ == e.0 && r->0.start.line == line
            && r->0.start.character == e.1 && r->0.end.line == line && r->0.end.character == e.2,
    }
}

/// The characters of `text`, in order.
fn text_chars(text: &str) -> (r: Vec<char>)
    ensures
        r@ == text@,
{
    let n = text.unicode_len();
    let mut it = text.chars();
    let mut v: Vec<char> = Vec::new();
    let mut i: usize = 0;
    while i < n
        invariant
            n == text@.len(),
            i <= n,
            v.len() == i,
            v@ + it.remaining() == text@,
            it.obeys_prophetic_iter_laws(),
        decreases n - i,
    {
        match it.next() {
            Some(c) => {
                v.push(c);
                assert(v@ + it.remaining() =~= text@);
            },
            None => {
                assert(false);
            },
        }
        i = i + 1;
    }
    assert(v@ =~= text@);
    v
}

proof fn lemma_next_newline_bounds(t: Seq<char>, from: int)
    requires
        0 <= from <= t.len(),
    ensures
        from <= next_newline(t, from) <= t.len(),
        next_newline(t, from) < t.len() ==> t[next_newline(t, from)] == '\n',
        forall|j: int| from <= j < next_newline(t, from) ==> t[j] != '\n',
    decreases t.len() - from,
{
    if from < t.len() && t[from] != '\n' {
        lemma_next_newline_bounds(t, from + 1);
    }
}

proof fn lemma_no_line_after(t: Seq<char>, k: nat, n: nat)
    requires
        k <= n,
        line_start(t, k) is None,
    ensures
        line_start(t, n) is None,
    decreases n - k,
{
    if k < n {
        lemma_no_line_after(t, k + 1, n);
    }
}

/// Index of the first newline of `t` at or after `from`, or its length.
fn find_newline(t: &Vec<char>, from: usize) -> (r: usize)
    requires
        from <= t.len(),
    ensures
        r == next_newline(t@, from as int),
{
    let mut j = from;
    while j < t.len() && t[j] != '\n'
        invariant
            from <= j <= t.len(),
            next_newline(t@, j as int) == next_newline(t@, from as int),
        decreases t.len() - j,
    {
        j = j + 1;
    }
    j
}

/// Start and end of line `n` of `t`, as `line_text` defines it.
fn line_bounds(t: &Vec<char>, n: usize) -> (r: (usize, usize))
    ensures
        r.0 <= r.1 <= t.len(),
        t@.subrange(r.0 as int, r.1 as int) == line_text(t@, n as nat),
{
    let mut s: usize = 0;
    let mut k: usize = 0;
    while k < n
        invariant
            k <= n,
            s <= t.len(),
            line_start(t@, k as nat) == Some(s as int),
        decreases n - k,
    {
        let e = find_newline(t, s);
        if e == t.len() {
            proof {
                assert(line_start(t@, (k + 1) as nat) is None);
                lemma_no_line_after(t@, (k + 1) as nat, n as nat);
            }
            return (0, 0);
        }
        proof {
            lemma_next_newline_bounds(t@, s as int);
        }
        s = e + 1;
        k = k + 1;
    }
    if s == t.len() {
        return (0, 0);
    }
    let e = find_newline(t, s);
    proof {
        lemma_next_newline_bounds(t@, s as int);
    }
    if e < t.len() && e > s && t[e - 1] == '\r' {
        (s, e - 1)
    } else {
        (s, e)
    }
}

/// The characters of `t` from `a` to `b`.
fn copy_range(t: &Vec<char>, a: usize, b: usize) -> (r: Vec<char>)
    requires
        a <= b <= t.len(),
    ensures
        r@ == t@.subrange(a as int, b as int),
{
    let mut r: Vec<char> = Vec::new();
    let mut i = a;
    while i < b
        invariant
            a <= i <= b <= t.len(),
            r@ == t@.subrange(a as int, i as int),
        decreases b - i,
    {
        r.push(t[i]);
        assert(r@ =~= t@.subrange(a as int, i + 1));
        i = i + 1;
    }
    r
}

/// The run of word characters around `column` of line `l`, after moving a
/// column past the end of the line back to its end.
fn word_bounds(l: &Vec<char>, column: usize) -> (r: (usize, usize))
    ensures
        r.0 as int == run_start(l@, clamp_column(l@, column as nat)),
        r.1 as int == run_end(l@, clamp_column(l@, column as nat)),
        r.0 <= r.1 <= l.len(),
{
    let c = if column <= l.len() {
        column
    } else {
        l.len()
    };
    let mut start = c;
    while start > 0 && word_char(l[start - 1])
        invariant
            start <= c <= l.len(),
            run_start(l@, start as int) == run_start(l@, c as int),
        decreases start,
    {
        start = start - 1;
    }
    let mut end = c;
    while end < l.len() && word_char(l[end])
        invariant
            c <= end <= l.len(),
            run_end(l@, end as int) == run_end(l@, c as int),
        decreases l.len() - end,
    {
        end = end + 1;
    }
    (start, end)
}

/// Resolves a hover query on the text of a document: finds the word at
/// `line`/`column` (columns count characters), strips one pair of quotes from
/// it and looks it up in `docs`. On a hit the range covers the word as written.
pub fn resolve(text: &str, line: usize, column: usize, docs: &Docs) -> (r: Option<HoverInfo>)
    requires
        docs.wf(),
    ensures
        answers(r, line as nat, hover_result(text@, line as nat, column as nat, docs@)),
{
    let t = text_chars(text);
    let (ls, le) = line_bounds(&t, line);
    let l = copy_range(&t, ls, le);
    let (a, b) = word_bounds(&l, column);
    let ghost raw = l@.subrange(a as int, b as int);
    let mut ka = a;
    if ka < b && l[ka] == '"' {
        ka = ka + 1;
    }
    let mut kb = b;
    if kb > ka && l[kb - 1] == '"' {
        kb = kb - 1;
    }
    proof {
        let w1 = if raw.len() > 0 && raw[0] == '"' {
            raw.drop_first()
        } else {
            raw
        };
        assert(w1 =~= l@.subrange(ka as int, b as int));
        assert(strip_quotes(raw) =~= l@.subrange(ka as int, kb as int));
        assert(l@.subrange(ka as int, kb as int) =~= text@.subrange(ls + ka, ls + kb));
    }
    if ka == kb {
        return None;
    }
    let key = text.substring_char(ls + ka, ls + kb);
    match docs.get(key) {
        Some(contents) => Some(
            HoverInfo {
                contents,
                start: Position { line, character: a },
                end: Position { line, character: b },
            },
        ),
        None => None,
    }
}

/// Resolves a hover query on the open document `id`; a document that is not
/// open has no hover answer.
pub fn hover(store: &DocumentStore, docs: &Docs, id: &str, line: usize, column: usize) -> (r:
    Option<HoverInfo>)
    requires
        store.wf(),
        docs.wf(),
    ensures
        answers(r, line as nat, store_hover_result(store@, id@, line as nat, column as nat, docs@)),
{
    match store.get(id) {
        Some(text) => resolve(text.as_str(), line, column, docs),
        None => None,
    }
}

proof fn lemma_run_start_at(l: Seq<char>, a: int, c: int)
    requires
        0 <= a <= c <= l.len(),
        forall|i: int| a <= i < c ==> is_word_char(l[i]),
        a == 0 || !is_word_char(l[a - 1]),
    ensures
        run_start(l, c) == a,
    decreases c - a,
{
    if a < c {
        lemma_run_start_at(l, a, c - 1);
    }
}

proof fn lemma_run_end_at(l: Seq<char>, c: int, b: int)
    requires
        0 <= c <= b <= l.len(),
        forall|i: int| c <= i < b ==> is_word_char(l[i]),
        b == l.len() || !is_word_char(l[b]),
    ensures
        run_end(l, c) == b,
    decreases b - c,
{
    if c < b {
        lemma_run_end_at(l, c + 1, b);
    }
}

proof fn lemma_run_start_bounds(l: Seq<char>, c: int)
    requires
        0 <= c <= l.len(),
    ensures
        0 <= run_start(l, c) <= c,
    decreases c,
{
    if 0 < c && is_word_char(l[c - 1]) {
        lemma_run_start_bounds(l, c - 1);
    }
}

proof fn lemma_run_end_bounds(l: Seq<char>, c: int)
    requires
        0 <= c <= l.len(),
    ensures
        c <= run_end(l, c) <= l.len(),
    decreases l.len() - c,
{
    if c < l.len() && is_word_char(l[c]) {
        lemma_run_end_bounds(l, c + 1);
    }
}

/// A cursor anywhere inside a maximal run of word characters on its line, or at
/// either edge of it, selects exactly that run; so every such cursor gets the
/// same answer, and a hit's range is the run's bounds.
pub proof fn lemma_maximal_run_selected(
    t: Seq<char>,
    line: nat,
    column: nat,
    other_column: nat,
    a: int,
    b: int,
    dict: Map<Seq<char>, Seq<char>>,
)
    requires
        0 <= a <= column <= b <= line_text(t, line).len(),
        a <= other_column <= b,
        forall|i: int| a <= i < b ==> is_word_char(#[trigger] line_text(t, line)[i]),
        a == 0 || !is_word_char(line_text(t, line)[a - 1]),
        b == line_text(t, line).len() || !is_word_char(line_text(t, line)[b]),
    ensures
        token_bounds(t, line, column) == (a, b),
        hover_result(t, line, column, dict) == hover_result(t, line, other_column, dict),
        hover_result(t, line, column, dict) matches Some((_, start, end)) ==> start == a && end
            == b,
{
    let l = line_text(t, line);
    lemma_run_start_at(l, a, column as int);
    lemma_run_end_at(l, column as int, b);
    lemma_run_start_at(l, a, other_column as int);
    lemma_run_end_at(l, other_column as int, b);
}

/// Stripping quotes changes only the lookup key: a hit's range is the raw token
/// as written, quotes included, and the key, never longer than that range, is the
/// token without one leading and one trailing quote.
pub proof fn lemma_range_covers_raw_token(
    t: Seq<char>,
    line: nat,
    column: nat,
    dict: Map<Seq<char>, Seq<char>>,
)
    requires
        hover_result(t, line, column, dict) is Some,
    ensures
        ({
            let (p, a, b) = hover_result(t, line, column, dict)->0;
            let key = strip_quotes(line_text(t, line).subrange(a, b));
            &&& (a, b) == token_bounds(t, line, column)
            &&& 0 <= a <= b <= line_text(t, line).len()
            &&& dict.contains_key(key)
            &&& p == dict[key]
            &&& 0 < key.len() <= b - a
        }),
{
    let l = line_text(t, line);
    lemma_run_start_bounds(l, clamp_column(l, column));
    lemma_run_end_bounds(l, clamp_column(l, column));
}

/// A word the dictionary lacks has no hover answer.
pub proof fn lemma_missing_key_no_result(
    t: Seq<char>,
    line: nat,
    column: nat,
    dict: Map<Seq<char>, Seq<char>>,
)
    requires
        !dict.contains_key(hover_key(t, line, column)),
    ensures
        hover_result(t, line, column, dict) is None,
{
}

/// A cursor between two characters that are not word characters (or the edge
/// of the line) selects the empty word, which has no hover answer.
pub proof fn lemma_empty_word_no_result(
    t: Seq<char>,
    line: nat,
    column: nat,
    dict: Map<Seq<char>, Seq<char>>,
)
    requires
        ({
            let l = line_text(t, line);
            let c = clamp_column(l, column);
            &&& c == 0 || !is_word_char(l[c - 1])
            &&& c == l.len() || !is_word_char(l[c])
        }),
    ensures
        hover_key(t, line, column).len() == 0,
        hover_result(t, line, column, dict) is None,
{
    let l = line_text(t, line);
    let c = clamp_column(l, column);
    assert(l.subrange(c, c).len() == 0);
}

/// With an empty dictionary no query has a hover answer.
pub proof fn lemma_empty_dictionary_no_result(t: Seq<char>, line: nat, column: nat)
    ensures
        hover_result(t, line, column, Map::<Seq<char>, Seq<char>>::empty()) is None,
{
}

/// A document that was never opened has no hover answer, at any position.
pub proof fn lemma_unopened_no_result(
    store: DocumentStore,
    id: Seq<char>,
    line: nat,
    column: nat,
    dict: Map<Seq<char>, Seq<char>>,
)
    requires
        !store@.contains_key(id),
    ensures
        store_hover_result(store@, id, line, column, dict) is None,
{
}

} // verus!
