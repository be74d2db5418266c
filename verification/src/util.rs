//! Quote-aware splitting of a command line into its arguments.
use vstd::prelude::*;
use vstd::string::*;

use crate::config::Transition;

verus! {

/// Whether `c` opens or closes a quoted span.
pub open spec fn is_quote(c: char) -> bool {
    c == '"' || c == '\''
}

/// The quoting state after reading `c` in state `q`. A quote character opens
/// a span outside of one and closes the span of its own kind; inside a span
/// of the other kind it is ordinary text.
pub open spec fn step_quote(q: Option<char>, c: char) -> Option<char> {
    if is_quote(c) {
        match q {
            None => Some(c),
            Some(open) => if open == c {
                None
            } else {
                q
            },
        }
    } else {
        q
    }
}

/// The quote that is open after the first `i` characters of `s`, if any.
pub open spec fn quote_after(s: Seq<char>, i: int) -> Option<char>
    decreases i,
{
    if i <= 0 {
        None
    } else {
        step_quote(quote_after(s, i - 1), s[i - 1])
    }
}

/// Whether position `i` of `s` holds a space outside of any quoted span.
pub open spec fn is_separator(s: Seq<char>, i: int) -> bool {
    0 <= i < s.len() && s[i] == ' ' && quote_after(s, i) is None
}

/// The position just behind the last separator among the first `i`
/// characters of `s`, or 0 where there is none.
pub open spec fn token_start(s: Seq<char>, i: int) -> int
    decreases i,
{
    if i <= 0 {
        0
    } else if is_separator(s, i - 1) {
        i
    } else {
        token_start(s, i - 1)
    }
}

/// The tokens that a separator among the first `i` characters of `s` ends,
/// in order: each is the non-empty text between two neighbouring separators
/// (or between the start of `s` and its first separator).
pub open spec fn closed_tokens(s: Seq<char>, i: int) -> Seq<Seq<char>>
    decreases i,
{
    if i <= 0 {
        Seq::empty()
    } else if is_separator(s, i - 1) && token_start(s, i - 1) < i - 1 {
        closed_tokens(s, i - 1).push(s.subrange(token_start(s, i - 1), i - 1))
    } else {
        closed_tokens(s, i - 1)
    }
}

/// The tokens of `s`: those that a separator ends, followed by the text
/// behind the last separator where it is at least two characters long. A
/// single trailing character that no separator follows is not a token.
pub open spec fn split_spec(s: Seq<char>) -> Seq<Seq<char>> {
    let n = s.len() as int;
    let beg = token_start(s, n);
    if beg + 1 < n {
        closed_tokens(s, n).push(s.subrange(beg, n))
    } else {
        closed_tokens(s, n)
    }
}

/// `t` without its first and last character where these are one and the
/// same quote character; `t` itself otherwise.
pub open spec fn trim_quotes(t: Seq<char>) -> Seq<char> {
    if t.len() >= 2 && is_quote(t[0]) && t[t.len() - 1] == t[0] {
        t.subrange(1, t.len() - 1)
    } else {
        t
    }
}

/// The tokens of `s`, each without its one outer layer of quotes.
pub open spec fn split_trimmed_spec(s: Seq<char>) -> Seq<Seq<char>> {
    split_spec(s).map_values(|t: Seq<char>| trim_quotes(t))
}

/// The texts that a sequence of string slices stands for.
pub open spec fn token_views(v: Seq<&str>) -> Seq<Seq<char>> {
    v.map_values(|t: &str| t@)
}

/// Splits a command line at its unquoted spaces. Quoted spans stay whole and
/// keep their quote characters.
pub fn split_cmd<'a>(s: &'a str) -> (res: Vec<&'a str>)
    ensures
        token_views(res@) == split_spec(s@),
{
    let n: usize = s.unicode_len();
    let mut result: Vec<&'a str> = Vec::new();
    let mut quote: Option<char> = None;
    let mut beg: usize = 0;
    let mut i: usize = 0;
    while i < n
        invariant
            n == s@.len(),
            beg <= i <= n,
            beg == token_start(s@, i as int),
            quote == quote_after(s@, i as int),
            token_views(result@) =~= closed_tokens(s@, i as int),
        decreases n - i,
    {
        let c = s.get_char(i);
        if c == ' ' && quote.is_none() {
            if beg < i {
                let token = s.substring_char(beg, i);
                result.push(token);
            }
            beg = i + 1;
        } else if c == '"' || c == '\'' {
            quote = match quote {
                None => Some(c),
                Some(open) => if open == c {
                    None
                } else {
                    Some(open)
                },
            };
        }
        i += 1;
    }
    if beg < n && beg + 1 < n {
        let token = s.substring_char(beg, n);
        result.push(token);
    }
    assert(token_views(result@) =~= split_spec(s@));
    result
}

/// Strips one layer of quotes from a token: where it starts and ends with
/// the same quote character, both leave.
pub fn trim_token<'a>(t: &'a str) -> (res: &'a str)
    ensures
        res@ == trim_quotes(t@),
{
    let n: usize = t.unicode_len();
    if n >= 2 {
        let first = t.get_char(0);
        let last = t.get_char(n - 1);
        if (first == '"' || first == '\'') && last == first {
            return t.substring_char(1, n - 1);
        }
    }
    t
}

/// Splits a command line as `split_cmd` does and strips one layer of quotes
/// from each token.
pub fn split_cmd_trimmed<'a>(s: &'a str) -> (res: Vec<&'a str>)
    ensures
        token_views(res@) == split_trimmed_spec(s@),
{
    let tokens = split_cmd(s);
    let mut result: Vec<&'a str> = Vec::new();
    let mut i: usize = 0;
    while i < tokens.len()
        invariant
            i <= tokens.len(),
            tokens@.len() == split_spec(s@).len(),
            token_views(tokens@) == split_spec(s@),
            token_views(result@) =~= split_trimmed_spec(s@).take(i as int),
        decreases tokens.len() - i,
    {
        assert(token_views(tokens@)[i as int] == tokens@[i as int]@);
        let t = trim_token(tokens[i]);
        result.push(t);
        i += 1;
        assert(split_trimmed_spec(s@).take(i as int) =~= split_trimmed_spec(s@).take(i - 1).push(
            trim_quotes(split_spec(s@)[i - 1]),
        ));
    }
    assert(token_views(tokens@).len() == tokens@.len());
    assert(token_views(result@) =~= split_trimmed_spec(s@));
    result
}

/// An empty command line has no tokens.
pub proof fn lemma_split_empty()
    ensures
        split_spec(Seq::<char>::empty()) == Seq::<Seq<char>>::empty(),
{
}

/// No token that a separator ends is empty.
pub proof fn lemma_closed_tokens_not_empty(s: Seq<char>, i: int)
    requires
        0 <= i <= s.len(),
    ensures
        0 <= token_start(s, i) <= i,
        forall|k: int| 0 <= k < closed_tokens(s, i).len() ==> (#[trigger] closed_tokens(s, i)[k]).len() > 0,
    decreases i,
{
    if i > 0 {
        lemma_closed_tokens_not_empty(s, i - 1);
        let prev = closed_tokens(s, i - 1);
        assert forall|k: int| 0 <= k < closed_tokens(s, i).len() implies (#[trigger] closed_tokens(
            s,
            i,
        )[k]).len() > 0 by {
            if k < prev.len() {
                assert(closed_tokens(s, i)[k] == prev[k]);
            }
        }
    }
}

/// No token is empty: runs of spaces give no tokens.
pub proof fn lemma_tokens_not_empty(s: Seq<char>)
    ensures
        forall|k: int| 0 <= k < split_spec(s).len() ==> (#[trigger] split_spec(s)[k]).len() > 0,
{
    lemma_closed_tokens_not_empty(s, s.len() as int);
}

/// Where the tokens that a separator ends lie in `s`: for each its first
/// position and the position of the separator behind it.
pub open spec fn closed_spans(s: Seq<char>, i: int) -> Seq<(int, int)>
    decreases i,
{
    if i <= 0 {
        Seq::empty()
    } else if is_separator(s, i - 1) && token_start(s, i - 1) < i - 1 {
        closed_spans(s, i - 1).push((token_start(s, i - 1), i - 1))
    } else {
        closed_spans(s, i - 1)
    }
}

/// Whether the text from `a` up to `b` is a piece of `s` between two
/// neighbouring separators: not empty, with no separator in it, and with a
/// separator or the start of `s` before it.
pub open spec fn is_piece(s: Seq<char>, a: int, b: int) -> bool {
    &&& 0 <= a < b <= s.len()
    &&& a == 0 || is_separator(s, a - 1)
    &&& forall|p: int| a <= p < b ==> !is_separator(s, p)
}

/// From the start of the current token on, the first `i` characters hold
/// no separator, and a separator or the start of `s` stands before it.
pub proof fn lemma_token_start(s: Seq<char>, i: int)
    requires
        0 <= i <= s.len(),
    ensures
        0 <= token_start(s, i) <= i,
        token_start(s, i) == 0 || is_separator(s, token_start(s, i) - 1),
        forall|p: int| token_start(s, i) <= p < i ==> !is_separator(s, p),
    decreases i,
{
    if i > 0 {
        lemma_token_start(s, i - 1);
    }
}

/// The tokens that a separator ends are exactly the pieces of `s` between
/// neighbouring separators, in the order in which they stand in `s`: each
/// is the text of its span, each span is such a piece and ends at a
/// separator, and each span lies behind the one before it.
pub proof fn lemma_closed_tokens_are_pieces(s: Seq<char>, i: int)
    requires
        0 <= i <= s.len(),
    ensures
        closed_tokens(s, i).len() == closed_spans(s, i).len(),
        forall|k: int|
            0 <= k < closed_spans(s, i).len() ==> {
                let (a, b) = #[trigger] closed_spans(s, i)[k];
                &&& is_piece(s, a, b)
                &&& b < token_start(s, i)
                &&& is_separator(s, b)
                &&& closed_tokens(s, i)[k] == s.subrange(a, b)
            },
        forall|k: int|
            0 <= k < closed_spans(s, i).len() - 1 ==> (#[trigger] closed_spans(s, i)[k]).1
                < closed_spans(s, i)[k + 1].0,
    decreases i,
{
    if i > 0 {
        lemma_closed_tokens_are_pieces(s, i - 1);
        lemma_token_start(s, i - 1);
        lemma_token_start(s, i);
        let prev = closed_spans(s, i - 1);
        let here = closed_spans(s, i);
        assert forall|k: int| 0 <= k < here.len() implies {
            let (a, b) = #[trigger] here[k];
            &&& is_piece(s, a, b)
            &&& b < token_start(s, i)
            &&& is_separator(s, b)
            &&& closed_tokens(s, i)[k] == s.subrange(a, b)
        } by {
            if k < prev.len() {
                assert(here[k] == prev[k]);
                assert(closed_tokens(s, i)[k] == closed_tokens(s, i - 1)[k]);
            }
        }
        assert forall|k: int| 0 <= k < here.len() - 1 implies (#[trigger] here[k]).1 < here[k
            + 1].0 by {
            assert(here[k] == prev[k]);
            if k + 1 < prev.len() {
                assert(here[k + 1] == prev[k + 1]);
            }
        }
    }
}

/// The text behind the last separator, where it is a token, is a piece of
/// `s` that runs to its end.
pub proof fn lemma_last_token_is_piece(s: Seq<char>)
    requires
        token_start(s, s.len() as int) + 1 < s.len(),
    ensures
        split_spec(s).len() == closed_tokens(s, s.len() as int).len() + 1,
        split_spec(s).last() == s.subrange(token_start(s, s.len() as int), s.len() as int),
        is_piece(s, token_start(s, s.len() as int), s.len() as int),
{
    lemma_token_start(s, s.len() as int);
}

/// Trimming takes exactly one layer of quotes off: of a text between two
/// quote characters of one kind it leaves the text, whatever that holds.
pub proof fn lemma_trim_strips_one_layer(q: char, body: Seq<char>)
    requires
        is_quote(q),
    ensures
        trim_quotes(seq![q] + body + seq![q]) == body,
{
    let t = seq![q] + body + seq![q];
    assert(t.subrange(1, t.len() - 1) =~= body);
}

/// Trimming leaves a token as it is unless it starts and ends with one and
/// the same quote character; so it does every token that starts with none.
pub proof fn lemma_trim_keeps_unquoted(t: Seq<char>)
    requires
        t.len() < 2 || !is_quote(t[0]) || t[t.len() - 1] != t[0],
    ensures
        trim_quotes(t) == t,
{
}

/// The trimmed tokens are the tokens, one for one, each trimmed.
pub proof fn lemma_trimmed_token_by_token(s: Seq<char>)
    ensures
        split_trimmed_spec(s).len() == split_spec(s).len(),
        forall|k: int|
            0 <= k < split_spec(s).len() ==> #[trigger] split_trimmed_spec(s)[k] == trim_quotes(
                split_spec(s)[k],
            ),
{
}

/// The canonical lower-case name of a transition.
pub fn transtion_to_string(t: &Transition) -> (res: &'static str)
    ensures
        res@ == t.name(),
{
    match t {
        Transition::Unchanged => "none",
        Transition::Created => "created",
        Transition::Modified => "modified",
        Transition::Deleted => "deleted",
    }
}

} // verus!
