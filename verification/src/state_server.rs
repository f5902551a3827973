//! The controller's boot state machine.
//!
//! After power-on the machine is in `Boot`, holding a start string. Moving to
//! `PreOperational` breaks that string into its space-separated words, and
//! moving on to `Operational` keeps the number of words.
use vstd::prelude::*;

verus! {

/// A state machine in state `S`, with a value that the transitions carry along.
pub struct StateMachine<S> {
    pub some_unrelated_value: usize,
    pub state: S,
}

/// The state after power-on: the machine holds its start string.
pub struct Boot {
    pub start_value: String,
}

/// The state in which the start string is broken into words.
pub struct PreOperational {
    pub interm_value: Vec<String>,
}

/// The final state: the number of words.
pub struct Operational {
    pub final_value: usize,
}

/// The pieces of `s` between its spaces, in order, as `str::split(" ")` gives
/// them: one more piece than `s` has spaces, empty pieces included.
pub open spec fn split_words(s: Seq<char>) -> Seq<Seq<char>>
    decreases s.len(),
{
    if s.len() == 0 {
        seq![Seq::<char>::empty()]
    } else {
        let w = split_words(s.drop_last());
        if s.last() == ' ' {
            w.push(Seq::<char>::empty())
        } else {
            w.update(w.len() - 1, w.last().push(s.last()))
        }
    }
}

/// The number of spaces in `s`.
pub open spec fn count_spaces(s: Seq<char>) -> nat
    decreases s.len(),
{
    if s.len() == 0 {
        0
    } else {
        count_spaces(s.drop_last()) + if s.last() == ' ' { 1nat } else { 0nat }
    }
}

/// The words of `ws` joined with single spaces.
pub open spec fn join_words(ws: Seq<Seq<char>>) -> Seq<char>
    decreases ws.len(),
{
    if ws.len() == 0 {
        Seq::empty()
    } else if ws.len() == 1 {
        ws[0]
    } else {
        join_words(ws.drop_last()) + seq![' '] + ws.last()
    }
}

/// What a list of strings holds.
pub open spec fn strings_view(ws: Seq<String>) -> Seq<Seq<char>> {
    ws.map_values(|w: String| w@)
}

/// `split_words` never answers an empty list.
pub proof fn lemma_split_words_nonempty(s: Seq<char>)
    ensures
        split_words(s).len() >= 1,
    decreases s.len(),
{
    if s.len() > 0 {
        lemma_split_words_nonempty(s.drop_last());
    }
}

/// Breaking a string at its spaces gives one more word than it has spaces.
pub proof fn lemma_word_count(s: Seq<char>)
    ensures
        split_words(s).len() == count_spaces(s) + 1,
    decreases s.len(),
{
    if s.len() > 0 {
        lemma_word_count(s.drop_last());
        lemma_split_words_nonempty(s.drop_last());
    }
}

proof fn lemma_join_extend_last(ws: Seq<Seq<char>>, c: char)
    requires
        ws.len() >= 1,
    ensures
        join_words(ws.update(ws.len() - 1, ws.last().push(c))) == join_words(ws).push(c),
{
    let u = ws.update(ws.len() - 1, ws.last().push(c));
    if ws.len() == 1 {
        assert(u[0] == ws[0].push(c));
    } else {
        assert(u.drop_last() =~= ws.drop_last());
        assert(join_words(u) =~= join_words(ws).push(c));
    }
}

/// Through the whole boot chain, the word count that `Operational` keeps is
/// the number of spaces in the start string plus one: a `PreOperational`
/// machine whose words are those of `start` has one more word than `start`
/// has spaces.
pub proof fn lemma_boot_chain_word_count(start: Seq<char>, words: Seq<String>, final_value: usize)
    requires
        strings_view(words) == split_words(start),
        final_value == words.len(),
    ensures
        final_value == count_spaces(start) + 1,
{
    lemma_word_count(start);
}

/// Joining the words of a string with single spaces gives the string back.
pub proof fn lemma_join_split(s: Seq<char>)
    ensures
        join_words(split_words(s)) == s,
    decreases s.len(),
{
    if s.len() > 0 {
        let p = s.drop_last();
        lemma_join_split(p);
        lemma_split_words_nonempty(p);
        let w = split_words(p);
        if s.last() == ' ' {
            assert(w.push(Seq::<char>::empty()).drop_last() =~= w);
            assert(join_words(w.push(Seq::<char>::empty())) =~= p + seq![' '] + Seq::<char>::empty());
            assert(p + seq![' '] + Seq::<char>::empty() =~= s);
        } else {
            lemma_join_extend_last(w, s.last());
            assert(p.push(s.last()) =~= s);
        }
    }
}

/// No word of a string holds a space.
pub proof fn lemma_words_have_no_spaces(s: Seq<char>, i: int, j: int)
    requires
        0 <= i < split_words(s).len(),
        0 <= j < split_words(s)[i].len(),
    ensures
        split_words(s)[i][j] != ' ',
    decreases s.len(),
{
    if s.len() > 0 {
        let p = s.drop_last();
        lemma_split_words_nonempty(p);
        let w = split_words(p);
        if s.last() == ' ' {
            if i < w.len() {
                lemma_words_have_no_spaces(p, i, j);
            }
        } else {
            if i < w.len() - 1 || j < w[i].len() {
                lemma_words_have_no_spaces(p, i, j);
            }
        }
    }
}

/// The words of `s`, split at each space as `str::split(" ")` does.
fn split_on_spaces(s: &str) -> (words: Vec<String>)
    ensures
        strings_view(words@) == split_words(s@),
{
    let n = s.unicode_len();
    let mut words: Vec<String> = Vec::new();
    let mut start: usize = 0;
    let mut i: usize = 0;
    proof {
        assert(s@.take(0) =~= Seq::<char>::empty());
        assert(s@.subrange(0, 0) =~= Seq::<char>::empty());
        assert(strings_view(words@) + seq![s@.subrange(0, 0)] =~= split_words(s@.take(0)));
    }
    while i < n
        invariant
            n == s@.len(),
            start <= i <= n,
            strings_view(words@) + seq![s@.subrange(start as int, i as int)] == split_words(
                s@.take(i as int),
            ),
        decreases n - i,
    {
        let c = s.get_char(i);
        let ghost old_words = strings_view(words@);
        let ghost piece = s@.subrange(start as int, i as int);
        proof {
            assert(s@.take(i + 1).drop_last() =~= s@.take(i as int));
            assert(s@.take(i + 1).last() == c);
            lemma_split_words_nonempty(s@.take(i as int));
        }
        if c == ' ' {
            let w = String::from_str(s.substring_char(start, i));
            words.push(w);
            start = i + 1;
            proof {
                assert(strings_view(words@) =~= old_words.push(piece));
                assert(s@.subrange(start as int, i + 1) =~= Seq::<char>::empty());
                assert(strings_view(words@) + seq![s@.subrange(start as int, i + 1)] =~= split_words(
                    s@.take(i + 1),
                ));
            }
        } else {
            proof {
                let w = split_words(s@.take(i as int));
                assert(w =~= old_words + seq![piece]);
                assert(s@.subrange(start as int, i + 1) =~= piece.push(c));
                assert(old_words + seq![piece.push(c)] =~= w.update(w.len() - 1, w.last().push(c)));
            }
        }
        i = i + 1;
    }
    let last = String::from_str(s.substring_char(start, n));
    let ghost old_words = strings_view(words@);
    words.push(last);
    proof {
        assert(s@.take(n as int) =~= s@);
        assert(strings_view(words@) =~= old_words + seq![s@.subrange(start as int, n as int)]);
    }
    words
}

impl StateMachine<Boot> {
    /// A machine in `Boot`, holding `val`, with the carried value 0.
    pub fn new(val: String) -> (m: Self)
        ensures
            m.some_unrelated_value == 0,
            m.state.start_value@ == val@,
    {
        StateMachine { some_unrelated_value: 0, state: Boot::new(val) }
    }
}

impl Boot {
    fn new(start_value: String) -> (b: Self)
        ensures
            b.start_value@ == start_value@,
    {
        Boot { start_value: start_value }
    }
}

impl From<StateMachine<Boot>> for StateMachine<PreOperational> {
    /// Breaks the start string into its space-separated words.
    fn from(val: StateMachine<Boot>) -> (m: StateMachine<PreOperational>)
        ensures
            m.some_unrelated_value == val.some_unrelated_value,
            strings_view(m.state.interm_value@) == split_words(val.state.start_value@),
    {
        StateMachine {
            some_unrelated_value: val.some_unrelated_value,
            state: PreOperational { interm_value: split_on_spaces(val.state.start_value.as_str()) },
        }
    }
}

/// The words of a `PreOperational` machine are strings, which no spec function
/// can build, so this conversion claims no `from_spec`; `from` above states its
/// result itself.
impl vstd::std_specs::convert::FromSpecImpl<StateMachine<Boot>> for StateMachine<PreOperational> {
    open spec fn obeys_from_spec() -> bool {
        false
    }

    open spec fn from_spec(v: StateMachine<Boot>) -> StateMachine<PreOperational> {
        arbitrary()
    }
}

impl From<StateMachine<PreOperational>> for StateMachine<Operational> {
    /// Keeps the number of words.
    fn from(val: StateMachine<PreOperational>) -> (m: StateMachine<Operational>)
        ensures
            m.state.final_value == val.state.interm_value@.len(),
            m.some_unrelated_value == val.some_unrelated_value,
    {
        StateMachine {
            some_unrelated_value: val.some_unrelated_value,
            state: Operational { final_value: val.state.interm_value.len() },
        }
    }
}

impl vstd::std_specs::convert::FromSpecImpl<StateMachine<PreOperational>> for StateMachine<Operational> {
    open spec fn obeys_from_spec() -> bool {
        true
    }

    open spec fn from_spec(v: StateMachine<PreOperational>) -> StateMachine<Operational> {
        StateMachine {
            some_unrelated_value: v.some_unrelated_value,
            state: Operational { final_value: v.state.interm_value.len() },
        }
    }
}

}
