//! `^quote`: a list of quotes that the chat can read and extend.
use vstd::prelude::*;
use crate::chance::RandomSource;
use crate::command::{answers, make_reply};
use crate::sendable::SendMessage;
use crate::text::{
    all_space, decimal, has_prefix, is_digit, is_space, is_blank, join_words_from, joined_words, lemma_decimal_parses,
    lemma_two_words, parse_unsigned, parse_usize, push_decimal, same_text, split_words, starts_with,
    string_views, words,
};

verus! {

/// The answer to the body `body` when the quotes are `quotes` and `draw` is
/// the random number for a random pick: the quotes afterwards and the reply
/// text, if there is a reply.
///
/// - `^quote` alone: a random quote, none when there are no quotes;
/// - `^quote add <words>`: stores the words, each followed by a space, and
///   tells its number; `Invalid quote` when there are no words;
/// - `^quote <n>`: quote number `n`, counted from 0, or `Invalid quote #n`;
/// - anything else after `^quote`: the usage text.
pub open spec fn quote_answer(quotes: Seq<Seq<char>>, body: Seq<char>, draw: u64) -> (
    Seq<Seq<char>>,
    Option<Seq<char>>,
) {
    let w = words(body);
    if !starts_with(body, "^quote"@) {
        (quotes, None)
    } else if w.len() < 2 {
        if quotes.len() == 0 {
            (quotes, None)
        } else {
            (quotes, Some(quotes[((draw as usize) as nat % quotes.len()) as int]))
        }
    } else if w[1] == "add"@ {
        let q = joined_words(w.skip(2));
        if all_space(q) {
            (quotes, Some("Invalid quote"@))
        } else {
            (quotes.push(q), Some("Added new quote #"@ + decimal(quotes.len())))
        }
    } else {
        match parse_unsigned(w[1], usize::MAX as nat) {
            Some(idx) => if idx >= quotes.len() {
                (quotes, Some("Invalid quote #"@ + decimal(idx)))
            } else {
                (quotes, Some(quotes[idx as int]))
            },
            None => (quotes, Some("Usage: ^quote <index>|add quote"@)),
        }
    }
}

/// [`quote_answer`] for a message, which may have no body.
pub open spec fn quote_outcome(quotes: Seq<Seq<char>>, msg: SendMessage, draw: u64) -> (
    Seq<Seq<char>>,
    Option<Seq<char>>,
) {
    match msg.body {
        Some(b) => quote_answer(quotes, b@, draw),
        None => (quotes, None),
    }
}

/// The body of `msg` asks for a random quote and there is one to pick.
pub open spec fn wants_random_pick(quotes: Seq<Seq<char>>, msg: SendMessage) -> bool {
    msg.body matches Some(b) && starts_with(b@, "^quote"@) && words(b@).len() < 2 && quotes.len()
        > 0
}

/// A quote added with `^quote add` is told its number, and asking for that
/// number afterwards gives it back.
pub proof fn law_added_quote_reads_back(
    quotes: Seq<Seq<char>>,
    add_body: Seq<char>,
    read_body: Seq<char>,
    d1: u64,
    d2: u64,
)
    requires
        starts_with(add_body, "^quote"@),
        words(add_body).len() >= 2,
        words(add_body)[1] == "add"@,
        !all_space(joined_words(words(add_body).skip(2))),
        starts_with(read_body, "^quote"@),
        words(read_body).len() >= 2,
        words(read_body)[1] != "add"@,
        parse_unsigned(words(read_body)[1], usize::MAX as nat) == Some(quotes.len()),
    ensures
        quote_answer(quotes, add_body, d1) == (
            quotes.push(joined_words(words(add_body).skip(2))),
            Some("Added new quote #"@ + decimal(quotes.len())),
        ),
        quote_answer(quote_answer(quotes, add_body, d1).0, read_body, d2) == (
            quotes.push(joined_words(words(add_body).skip(2))),
            Some(joined_words(words(add_body).skip(2))),
        ),
{
}

/// No answer removes or changes a stored quote: the quotes afterwards are
/// the quotes before, with at most one more at the end.
pub proof fn law_quotes_only_grow(quotes: Seq<Seq<char>>, body: Seq<char>, draw: u64)
    ensures
        quote_answer(quotes, body, draw).0 == quotes || exists|q: Seq<char>|
            quote_answer(quotes, body, draw).0 == quotes.push(q),
{
    let w = words(body);
    if starts_with(body, "^quote"@) && w.len() >= 2 && w[1] == "add"@ && !all_space(
        joined_words(w.skip(2)),
    ) {
        assert(quote_answer(quotes, body, draw).0 == quotes.push(joined_words(w.skip(2))));
    }
}

/// A body that does not start with `^quote` gets no answer and changes
/// nothing.
pub proof fn law_other_messages_ignored(quotes: Seq<Seq<char>>, body: Seq<char>, draw: u64)
    requires
        !starts_with(body, "^quote"@),
    ensures
        quote_answer(quotes, body, draw) == (quotes, None::<Seq<char>>),
{
}

/// The quotes after answering the bodies of `steps` in turn, each with its
/// random number.
pub open spec fn run_quotes(quotes: Seq<Seq<char>>, steps: Seq<(Seq<char>, u64)>) -> Seq<Seq<char>>
    decreases steps.len(),
{
    if steps.len() == 0 {
        quotes
    } else {
        run_quotes(quote_answer(quotes, steps[0].0, steps[0].1).0, steps.drop_first())
    }
}

/// One answer adds a quote exactly when the body is `^quote add` with words.
pub proof fn law_one_answer_adds_only_on_add(quotes: Seq<Seq<char>>, body: Seq<char>, draw: u64)
    ensures
        quote_answer(quotes, body, draw).0.len() == quotes.len() + 1 <==> (starts_with(body, "^quote"@)
            && words(body).len() >= 2 && words(body)[1] == "add"@ && !all_space(
            joined_words(words(body).skip(2)),
        )),
        quote_answer(quotes, body, draw).0.len() <= quotes.len() + 1,
{
}

/// Over any run of answers the stored quotes stay as they were, in front,
/// and at most one quote is added per answer.
pub proof fn law_quotes_only_grow_over_a_run(quotes: Seq<Seq<char>>, steps: Seq<(Seq<char>, u64)>)
    ensures
        quotes.len() <= run_quotes(quotes, steps).len() <= quotes.len() + steps.len(),
        forall|i: int| 0 <= i < quotes.len() ==> #[trigger] run_quotes(quotes, steps)[i] == quotes[i],
    decreases steps.len(),
{
    if steps.len() > 0 {
        let q1 = quote_answer(quotes, steps[0].0, steps[0].1).0;
        law_quotes_only_grow(quotes, steps[0].0, steps[0].1);
        law_one_answer_adds_only_on_add(quotes, steps[0].0, steps[0].1);
        law_quotes_only_grow_over_a_run(q1, steps.drop_first());
        assert forall|i: int| 0 <= i < quotes.len() implies #[trigger] run_quotes(quotes, steps)[i]
            == quotes[i] by {
            assert(run_quotes(q1, steps.drop_first())[i] == q1[i]);
            if q1 != quotes {
                let q = choose|q: Seq<char>| q1 == quotes.push(q);
                assert(q1[i] == quotes[i]);
            }
        }
    }
}

/// A quote added with `^quote add` is read back by the number it was told,
/// whatever else was asked in between.
pub proof fn law_added_quote_reads_back_later(
    quotes: Seq<Seq<char>>,
    add_body: Seq<char>,
    d1: u64,
    steps: Seq<(Seq<char>, u64)>,
    read_body: Seq<char>,
    d2: u64,
)
    requires
        starts_with(add_body, "^quote"@),
        words(add_body).len() >= 2,
        words(add_body)[1] == "add"@,
        !all_space(joined_words(words(add_body).skip(2))),
        starts_with(read_body, "^quote"@),
        words(read_body).len() >= 2,
        words(read_body)[1] != "add"@,
        parse_unsigned(words(read_body)[1], usize::MAX as nat) == Some(quotes.len()),
    ensures
        quote_answer(run_quotes(quote_answer(quotes, add_body, d1).0, steps), read_body, d2).1 == Some(
            joined_words(words(add_body).skip(2)),
        ),
{
    let q1 = quote_answer(quotes, add_body, d1).0;
    assert(q1 == quotes.push(joined_words(words(add_body).skip(2))));
    law_quotes_only_grow_over_a_run(q1, steps);
    assert(run_quotes(q1, steps)[quotes.len() as int] == q1[quotes.len() as int]);
}

/// The number that `^quote add` reports is the one to ask for: after the
/// reply `Added new quote #n`, and any other answers since, the body
/// `^quote n` (with `n` written as reported) gives the quote back.
pub proof fn law_reported_number_reads_back(
    quotes: Seq<Seq<char>>,
    add_body: Seq<char>,
    d1: u64,
    steps: Seq<(Seq<char>, u64)>,
    d2: u64,
)
    requires
        starts_with(add_body, "^quote"@),
        words(add_body).len() >= 2,
        words(add_body)[1] == "add"@,
        !all_space(joined_words(words(add_body).skip(2))),
        quotes.len() <= usize::MAX,
    ensures
        quote_answer(quotes, add_body, d1).1 == Some("Added new quote #"@ + decimal(quotes.len())),
        quote_answer(
            run_quotes(quote_answer(quotes, add_body, d1).0, steps),
            "^quote "@ + decimal(quotes.len()),
            d2,
        ).1 == Some(joined_words(words(add_body).skip(2))),
{
    reveal_strlit("^quote");
    reveal_strlit("^quote ");
    reveal_strlit(" ");
    let n = decimal(quotes.len());
    let read_body = "^quote "@ + n;
    lemma_decimal_parses(quotes.len(), usize::MAX as nat);
    assert("^quote "@ =~= "^quote"@ + " "@);
    assert(read_body =~= "^quote"@ + " "@ + n);
    assert forall|k: int| 0 <= k < "^quote"@.len() implies !is_space(#[trigger] "^quote"@[k]) by {}
    lemma_two_words("^quote"@, n);
    assert(read_body.subrange(0, 6) =~= "^quote"@);
    assert(words(read_body)[1] == n);
    assert(n != "add"@) by {
        reveal_strlit("add");
        assert(is_digit(n[0]));
    }
    law_added_quote_reads_back_later(quotes, add_body, d1, steps, read_body, d2);
}

/// The quote plugin.
pub struct Quotes {
    quotes: Vec<String>,
    random: RandomSource,
}

impl Quotes {
    /// The stored quotes, in order.
    pub closed spec fn texts(&self) -> Seq<Seq<char>> {
        string_views(self.quotes@)
    }

    /// How many random numbers this plugin has drawn.
    pub closed spec fn draws(&self) -> nat {
        self.random.reads()
    }

    /// A quote plugin that starts with the quotes `q`.
    pub fn new(q: Vec<String>) -> (r: Self)
        ensures
            r.texts() == string_views(q@),
            r.draws() == 0,
    {
        Quotes { quotes: q, random: RandomSource::new() }
    }

    /// The stored quotes.
    pub fn quotes(&self) -> (r: &Vec<String>)
        ensures
            string_views(r@) == self.texts(),
    {
        &self.quotes
    }

    /// Answers `message` with `draw` as the random number for a random
    /// pick.
    pub fn answer(&mut self, message: &SendMessage, draw: u64) -> (r: Option<SendMessage>)
        ensures
            final(self).texts() == quote_outcome(old(self).texts(), *message, draw).0,
            answers(*message, r, quote_outcome(old(self).texts(), *message, draw).1),
            final(self).draws() == old(self).draws(),
    {
        let body = match &message.body {
            Some(b) => b,
            None => {
                return None;
            },
        };
        if !has_prefix(body.as_str(), "^quote") {
            return None;
        }
        let args = split_words(body.as_str());
        let ghost w = words(body@);
        let ghost q0 = self.texts();
        assert(string_views(args@) =~= w);
        let mut out: String;
        if args.len() >= 2 {
            let a = &args[1];
            if same_text(a.as_str(), "add") {
                let q = join_words_from(&args, 2);
                if is_blank(q.as_str()) {
                    out = "Invalid quote".to_owned();
                } else {
                    let ghost qv = q@;
                    self.quotes.push(q);
                    proof {
                        assert(self.texts() =~= q0.push(qv));
                    }
                    out = "Added new quote #".to_owned();
                    push_decimal(&mut out, (self.quotes.len() - 1) as u64);
                }
            } else {
                match parse_usize(a.as_str()) {
                    Some(idx) => {
                        if idx >= self.quotes.len() {
                            out = "Invalid quote #".to_owned();
                            push_decimal(&mut out, idx as u64);
                        } else {
                            out = self.quotes[idx].clone();
                        }
                    },
                    None => {
                        out = "Usage: ^quote <index>|add quote".to_owned();
                    },
                }
            }
        } else {
            if self.quotes.len() == 0 {
                return None;
            }
            let idx = draw as usize;
            let clamped = idx % self.quotes.len();
            out = self.quotes[clamped].clone();
        }
        Some(make_reply(message, out))
    }

    /// Answers `message`, drawing the random number only for a random pick.
    pub fn call(&mut self, message: SendMessage) -> (r: Option<SendMessage>)
        ensures
            exists|draw: u64|
                {
                    &&& final(self).texts() == quote_outcome(old(self).texts(), message, draw).0
                    &&& answers(message, r, quote_outcome(old(self).texts(), message, draw).1)
                },
            !wants_random_pick(old(self).texts(), message) ==> final(self).texts()
                == quote_outcome(old(self).texts(), message, 0).0 && answers(
                message,
                r,
                quote_outcome(old(self).texts(), message, 0).1,
            ),
            final(self).draws() == old(self).draws() + if wants_random_pick(old(self).texts(), message) {
                1nat
            } else {
                0nat
            },
    {
        let draw = if self.wants_draw(&message) {
            self.random.next()
        } else {
            0
        };
        self.answer(&message, draw)
    }

    /// Whether `message` asks for a random pick that can be made.
    fn wants_draw(&self, message: &SendMessage) -> (r: bool)
        ensures
            r == wants_random_pick(self.texts(), *message),
    {
        match &message.body {
            Some(b) => {
                if !has_prefix(b.as_str(), "^quote") {
                    return false;
                }
                let args = split_words(b.as_str());
                args.len() < 2 && self.quotes.len() > 0
            },
            None => false,
        }
    }
}

} // verus!
