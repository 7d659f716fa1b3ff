//! `^<command>`: commands addressed by name; `^throw XdY` throws dice.
use vstd::prelude::*;
use crate::chance::RandomSource;
use crate::command::{answers, make_reply};
use crate::sendable::SendMessage;
use crate::text::{
    all_digits, decimal, has_prefix, is_digit, lemma_decimal_parses, parse_u64, parse_unsigned, push_decimal, split_words, starts_with,
    strip_leading, trim_leading, same_text, words,
};

verus! {

/// `p` is the position of the only `d` in `a`.
pub open spec fn only_d_at(a: Seq<char>, p: int) -> bool {
    &&& 0 <= p < a.len()
    &&& a[p] == 'd'
    &&& forall|k: int| 0 <= k < a.len() && k != p ==> a[k] != 'd'
}

/// The numbers `x` and `y` of a throw `XdY`: `a` holds exactly one `d`,
/// and the text on each side of it is a `u64`.
pub open spec fn dice_request(a: Seq<char>) -> Option<(nat, nat)> {
    if exists|p: int| only_d_at(a, p) {
        let p = choose|p: int| only_d_at(a, p);
        match (parse_unsigned(a.take(p), u64::MAX as nat), parse_unsigned(a.skip(p + 1), u64::MAX as nat)) {
            (Some(x), Some(y)) => Some((x, y)),
            _ => None,
        }
    } else {
        None
    }
}

/// The dice that the random numbers `draws` throw: each `draw % y + 1`.
pub open spec fn rolls(draws: Seq<u64>, y: nat) -> Seq<nat> {
    draws.map_values(|d: u64| (d as nat % y) + 1)
}

/// The sum of `v`.
pub open spec fn total(v: Seq<nat>) -> nat
    decreases v.len(),
{
    if v.len() == 0 {
        0
    } else {
        total(v.drop_last()) + v.last()
    }
}

/// `v` written as `{:?}` writes a list of numbers: `[a, b, c]` without the
/// brackets.
pub open spec fn list_items(v: Seq<nat>) -> Seq<char>
    decreases v.len(),
{
    if v.len() == 0 {
        seq![]
    } else if v.len() == 1 {
        decimal(v[0])
    } else {
        list_items(v.drop_last()) + ", "@ + decimal(v.last())
    }
}

pub open spec fn usage_text() -> Seq<char> {
    "Usage: ^throw [X]d[Y], e.g. 6d20 to throw 6 20-sided dice"@
}

/// How many random numbers the throw `arg` draws.
pub open spec fn needed_draws(arg: Option<Seq<char>>) -> nat {
    match arg {
        Some(a) => match dice_request(a) {
            Some((x, y)) => if x < 256 { x } else { 0 },
            None => 0,
        },
        None => 0,
    }
}

/// The throw `arg` cannot fail: it throws no dice, or dice with at least one
/// side whose largest sum fits in a `u64`.
pub open spec fn dice_safe(arg: Option<Seq<char>>) -> bool {
    match arg {
        Some(a) => match dice_request(a) {
            Some((x, y)) => x < 256 ==> (x == 0 || (y > 0 && x * y <= u64::MAX)),
            None => true,
        },
        None => true,
    }
}

/// The numbers `draws` make a throw of `arg` that does not fail: for dice
/// that are thrown, they have at least one side and the sum of the dice
/// fits in a `u64`.
pub open spec fn draws_fit(arg: Option<Seq<char>>, draws: Seq<u64>) -> bool {
    match arg {
        Some(a) => match dice_request(a) {
            Some((x, y)) => (x < 256 && x > 0) ==> (y > 0 && total(rolls(draws, y)) <= u64::MAX),
            None => true,
        },
        None => true,
    }
}

/// The draws `draws` answer `msg` without failing.
pub open spec fn command_draws_fit(msg: SendMessage, draws: Seq<u64>) -> bool {
    message_throw(msg) matches Some(arg) ==> draws_fit(arg, draws)
}

/// The answer to `^throw arg` when the random numbers drawn are `draws`:
/// one die gives its number; other counts give the list of dice and their
/// sum; 256 dice or more are refused; anything else gets the usage text.
pub open spec fn dice_reply(arg: Option<Seq<char>>, draws: Seq<u64>) -> Seq<char> {
    match arg {
        Some(a) => match dice_request(a) {
            Some((x, y)) => if x >= 256 {
                "How about no?"@
            } else if x == 1 {
                decimal(rolls(draws, y)[0])
            } else {
                "["@ + list_items(rolls(draws, y)) + "] | "@ + decimal(total(rolls(draws, y)))
            },
            None => usage_text(),
        },
        None => usage_text(),
    }
}

/// How a throw is answered, by the number of dice asked for: 256 dice or
/// more are refused with "How about no?", and nothing else is; one die
/// gives its number; any other count below 256 gives the list of the dice
/// and their sum; text that is no throw gets the usage text.
pub proof fn law_dice_replies(a: Seq<char>, draws: Seq<u64>)
    ensures
        dice_request(a) is None ==> dice_reply(Some(a), draws) == usage_text(),
        dice_request(a) matches Some((x, y)) ==> (x >= 256 <==> dice_reply(Some(a), draws)
            == "How about no?"@),
        dice_request(a) matches Some((x, y)) ==> (x == 1 ==> dice_reply(Some(a), draws) == decimal(
            rolls(draws, y)[0],
        )),
        dice_request(a) matches Some((x, y)) ==> (x != 1 && x < 256 ==> dice_reply(Some(a), draws)
            == "["@ + list_items(rolls(draws, y)) + "] | "@ + decimal(total(rolls(draws, y)))),
        dice_reply(None, draws) == usage_text(),
{
    reveal_strlit("How about no?");
    reveal_strlit("[");
    if let Some((x, y)) = dice_request(a) {
        if x < 256 {
            let r = dice_reply(Some(a), draws);
            if x == 1 {
                lemma_decimal_parses(rolls(draws, y)[0], 0);
                assert(is_digit(r[0]));
            } else {
                assert(r[0] == '[');
            }
            assert(r[0] != "How about no?"@[0]);
        }
    }
}

/// The throw `XdY` written with the decimal numbers `x` and `y` asks for
/// `x` dice with `y` sides.
pub proof fn law_throw_text_is_read_back(x: nat, y: nat)
    requires
        x <= u64::MAX,
        y <= u64::MAX,
    ensures
        dice_request(decimal(x) + "d"@ + decimal(y)) == Some((x, y)),
{
    reveal_strlit("d");
    let dx = decimal(x);
    let dy = decimal(y);
    let a = dx + "d"@ + dy;
    let p = dx.len() as int;
    lemma_decimal_parses(x, u64::MAX as nat);
    lemma_decimal_parses(y, u64::MAX as nat);
    assert forall|k: int| 0 <= k < a.len() && k != p implies a[k] != 'd' by {
        if k < p {
            assert(a[k] == dx[k]);
            assert(is_digit(dx[k]));
        } else {
            assert(a[k] == dy[k - p - 1]);
            assert(is_digit(dy[k - p - 1]));
        }
    }
    assert(a[p] == 'd');
    assert(only_d_at(a, p));
    let q = choose|q: int| only_d_at(a, q);
    assert(only_d_at(a, q));
    assert(q == p);
    assert(a.take(p) =~= dx);
    assert(a.skip(p + 1) =~= dy);
}

/// The argument of a `^throw` command in `body`: `Some(arg)` when the first
/// word, without its leading `^`s, is `throw`; `arg` is the second word.
pub open spec fn throw_arg(body: Seq<char>) -> Option<Option<Seq<char>>> {
    let w = words(body);
    if starts_with(body, "^"@) && w.len() > 0 && strip_leading(w[0], '^') == "throw"@ {
        Some(if w.len() >= 2 { Some(w[1]) } else { None })
    } else {
        None
    }
}

/// The reply text of the command plugin to `body`.
pub open spec fn command_text(body: Seq<char>, draws: Seq<u64>) -> Option<Seq<char>> {
    match throw_arg(body) {
        Some(arg) => Some(dice_reply(arg, draws)),
        None => None,
    }
}

/// The reply text of the command plugin to a message.
pub open spec fn command_outcome(msg: SendMessage, draws: Seq<u64>) -> Option<Seq<char>> {
    match msg.body {
        Some(b) => command_text(b@, draws),
        None => None,
    }
}

/// The throw that `msg` asks for, if it asks for one.
pub open spec fn message_throw(msg: SendMessage) -> Option<Option<Seq<char>>> {
    match msg.body {
        Some(b) => throw_arg(b@),
        None => None,
    }
}

/// `msg` can be answered without failing.
pub open spec fn command_safe(msg: SendMessage) -> bool {
    message_throw(msg) matches Some(arg) ==> dice_safe(arg)
}

/// How many random numbers answering `msg` draws.
pub open spec fn command_draws(msg: SendMessage) -> nat {
    match message_throw(msg) {
        Some(arg) => needed_draws(arg),
        None => 0,
    }
}

/// Every die thrown shows a number from 1 to `y`.
pub proof fn law_dice_in_range(draws: Seq<u64>, y: nat)
    requires
        y > 0,
    ensures
        forall|k: int| 0 <= k < draws.len() ==> 1 <= #[trigger] rolls(draws, y)[k] <= y,
{
    assert forall|k: int| 0 <= k < draws.len() implies 1 <= #[trigger] rolls(draws, y)[k] <= y by {
        assert(rolls(draws, y)[k] == (draws[k] as nat % y) + 1);
    }
}

/// The sum that a throw of several dice reports is at most `x * y`, so it
/// fits in a `u64` on every throw that [`dice_safe`] allows.
pub proof fn law_sum_bounded(draws: Seq<u64>, y: nat)
    requires
        y > 0,
    ensures
        total(rolls(draws, y)) <= draws.len() * y,
{
    let rs = rolls(draws, y);
    assert forall|k: int| 0 <= k < rs.len() implies #[trigger] rs[k] <= y by {
        assert(rs[k] == (draws[k] as nat % y) + 1);
    }
    lemma_total_bound(rs, y);
}

proof fn lemma_total_prefix(v: Seq<nat>, i: int)
    requires
        0 <= i <= v.len(),
    ensures
        total(v.take(i)) <= total(v),
    decreases v.len() - i,
{
    if i < v.len() {
        lemma_total_prefix(v, i + 1);
        assert(v.take(i + 1).drop_last() =~= v.take(i));
    } else {
        assert(v.take(i) =~= v);
    }
}

proof fn lemma_total_bound(v: Seq<nat>, y: nat)
    requires
        forall|k: int| 0 <= k < v.len() ==> #[trigger] v[k] <= y,
    ensures
        total(v) <= v.len() * y,
    decreases v.len(),
{
    if v.len() > 0 {
        lemma_total_bound(v.drop_last(), y);
        assert(v.last() <= y);
        assert(total(v) <= (v.len() - 1) * y + y);
        assert((v.len() - 1) * y + y == v.len() * y) by (nonlinear_arith);
    }
}

/// The position of the only `d` of `a`, when it has exactly one.
fn find_only_d(a: &str) -> (r: Option<usize>)
    ensures
        r matches Some(p) ==> only_d_at(a@, p as int),
        r is None ==> !exists|p: int| only_d_at(a@, p),
{
    let n = a.unicode_len();
    let mut found: Option<usize> = None;
    let mut i: usize = 0;
    while i < n
        invariant
            n == a@.len(),
            i <= n,
            found matches Some(p) ==> p < i && a@[p as int] == 'd' && forall|k: int|
                0 <= k < i && k != p ==> a@[k] != 'd',
            found is None ==> forall|k: int| 0 <= k < i ==> a@[k] != 'd',
        decreases n - i,
    {
        if a.get_char(i) == 'd' {
            match found {
                Some(p) => {
                    proof {
                        assert forall|q: int| !only_d_at(a@, q) by {
                            if only_d_at(a@, q) {
                                if q == p as int {
                                    assert(a@[i as int] != 'd');
                                } else {
                                    assert(a@[p as int] != 'd');
                                }
                            }
                        }
                    }
                    return None;
                },
                None => {
                    found = Some(i);
                },
            }
        }
        i = i + 1;
    }
    proof {
        if found is None {
            assert forall|q: int| !only_d_at(a@, q) by {
                if 0 <= q < a@.len() {
                    assert(a@[q] != 'd');
                }
            }
        }
    }
    found
}

/// The numbers of a throw `XdY`, if `a` writes one.
fn parse_request(a: &str) -> (r: Option<(u64, u64)>)
    ensures
        r matches Some((x, y)) ==> dice_request(a@) == Some((x as nat, y as nat)),
        r is None ==> dice_request(a@) is None,
{
    match find_only_d(a) {
        Some(p) => {
            proof {
                assert forall|q: int| only_d_at(a@, q) implies q == p as int by {
                    if q != p as int {
                        assert(a@[p as int] != 'd');
                    }
                }
            }
            let n = a.unicode_len();
            let left = a.substring_char(0, p);
            let right = a.substring_char(p + 1, n);
            assert(a@.subrange(0, p as int) =~= a@.take(p as int));
            assert(a@.subrange(p + 1, n as int) =~= a@.skip(p + 1));
            match (parse_u64(left), parse_u64(right)) {
                (Some(x), Some(y)) => Some((x, y)),
                _ => None,
            }
        },
        None => None,
    }
}

/// Appends `v` written as a list of numbers, without brackets.
fn push_list(out: &mut String, v: &Vec<u64>)
    ensures
        final(out)@ == old(out)@ + list_items(v@.map_values(|d: u64| d as nat)),
{
    let ghost nv = v@.map_values(|d: u64| d as nat);
    let mut i: usize = 0;
    assert(nv.take(0) =~= Seq::<nat>::empty());
    while i < v.len()
        invariant
            i <= v@.len(),
            nv == v@.map_values(|d: u64| d as nat),
            out@ == old(out)@ + list_items(nv.take(i as int)),
        decreases v@.len() - i,
    {
        let ghost before = out@;
        if i > 0 {
            out.append(", ");
        }
        push_decimal(out, v[i]);
        proof {
            let t = nv.take(i + 1);
            assert(t.drop_last() =~= nv.take(i as int));
            assert(t.last() == v@[i as int] as nat);
            if i == 0 {
                assert(list_items(t) == decimal(t[0]));
                assert(out@ =~= old(out)@ + list_items(t));
            } else {
                assert(out@ =~= old(out)@ + list_items(t));
            }
        }
        i = i + 1;
    }
    assert(nv.take(i as int) =~= nv);
}

/// The dice-throwing command.
struct Dice {
    random: RandomSource,
}

impl Dice {
    fn new() -> (r: Dice)
        ensures
            r.random.reads() == 0,
    {
        Dice { random: RandomSource::new() }
    }

    /// The command's name.
    fn command() -> (r: &'static str)
        ensures
            r@ == "throw"@,
    {
        "throw"
    }

    /// The reply to the throw `arg` for the random numbers `draws`.
    fn reply(arg: Option<&str>, draws: &Vec<u64>) -> (r: String)
        requires
            draws_fit(opt_view(arg), draws@),
            draws@.len() == needed_draws(opt_view(arg)),
        ensures
            r@ == dice_reply(opt_view(arg), draws@),
    {
        proof {
            reveal_strlit("Usage: ^throw [X]d[Y], e.g. 6d20 to throw 6 20-sided dice");
        }
        let a = match arg {
            Some(a) => a,
            None => {
                return "Usage: ^throw [X]d[Y], e.g. 6d20 to throw 6 20-sided dice".to_owned();
            },
        };
        let (x, y) = match parse_request(a) {
            Some(r) => r,
            None => {
                return "Usage: ^throw [X]d[Y], e.g. 6d20 to throw 6 20-sided dice".to_owned();
            },
        };
        if x >= 256 {
            return "How about no?".to_owned();
        }
        let ghost rs = rolls(draws@, y as nat);
        let mut out: Vec<u64> = Vec::new();
        let mut sum: u64 = 0;
        let mut i: usize = 0;
        proof {
            assert(rs.take(0) =~= Seq::<nat>::empty());
        }
        while i < draws.len()
            invariant
                x < 256,
                draws@.len() == x,
                x > 0 ==> y > 0 && total(rs) <= u64::MAX,
                rs == rolls(draws@, y as nat),
                i <= draws@.len(),
                out@.len() == i,
                forall|k: int| 0 <= k < i ==> out@[k] as nat == #[trigger] rs[k],
                sum as nat == total(rs.take(i as int)),
            decreases draws@.len() - i,
        {
            let roll = (draws[i] % y) + 1;
            proof {
                assert(rs.take(i + 1).drop_last() =~= rs.take(i as int));
                assert(rs.take(i + 1).last() == rs[i as int]);
                lemma_total_prefix(rs, i + 1);
            }
            out.push(roll);
            sum = sum + roll;
            i = i + 1;
        }
        proof {
            assert(rs.take(i as int) =~= rs);
            assert(out@.map_values(|d: u64| d as nat) =~= rs);
        }
        let mut text = String::new();
        if x == 1 {
            push_decimal(&mut text, out[0]);
            assert(text@ =~= decimal(rs[0]));
        } else {
            text.append("[");
            push_list(&mut text, &out);
            text.append("] | ");
            push_decimal(&mut text, sum);
            assert(text@ =~= "["@ + list_items(rs) + "] | "@ + decimal(total(rs)));
        }
        text
    }

    /// Throws the dice that `arg` asks for.
    fn call(&mut self, arg: Option<&str>) -> (r: String)
        requires
            dice_safe(opt_view(arg)),
        ensures
            exists|draws: Seq<u64>|
                draws.len() == needed_draws(opt_view(arg)) && r@ == dice_reply(opt_view(arg), draws),
            final(self).random.reads() == old(self).random.reads() + needed_draws(opt_view(arg)),
    {
        let count: u64 = match arg {
            Some(a) => match parse_request(a) {
                Some((x, _y)) => if x < 256 {
                    x
                } else {
                    0
                },
                None => 0,
            },
            None => 0,
        };
        let mut draws: Vec<u64> = Vec::new();
        while (draws.len() as u64) < count
            invariant
                count < 256,
                draws@.len() <= count,
                self.random.reads() == old(self).random.reads() + draws@.len(),
            decreases count - draws@.len(),
        {
            draws.push(self.random.next());
        }
        proof {
            if let Some(a) = opt_view(arg) {
                if let Some((x, y)) = dice_request(a) {
                    if x < 256 && x > 0 {
                        law_sum_bounded(draws@, y);
                        assert(draws@.len() * y <= u64::MAX);
                    }
                }
            }
        }
        Dice::reply(arg, &draws)
    }
}

/// The view of an optional string slice.
pub open spec fn opt_view(a: Option<&str>) -> Option<Seq<char>> {
    match a {
        Some(s) => Some(s@),
        None => None,
    }
}

/// Whether the throw `arg` can be made without failing.
fn throw_is_safe(arg: Option<&str>) -> (r: bool)
    ensures
        r == dice_safe(opt_view(arg)),
{
    match arg {
        Some(a) => match parse_request(a) {
            Some((x, y)) => {
                if x >= 256 || x == 0 {
                    true
                } else if y == 0 {
                    false
                } else {
                    proof {
                        assert((x <= u64::MAX / y) <==> (x * y <= u64::MAX)) by (nonlinear_arith)
                            requires
                                y > 0,
                        ;
                    }
                    x <= u64::MAX / y
                }
            },
            None => true,
        },
        None => true,
    }
}

/// The command plugin: answers `^<name> ...` for the commands it knows.
pub struct CommandM {
    dice: Dice,
}

impl CommandM {
    /// How many random numbers this plugin has drawn.
    pub closed spec fn draws(&self) -> nat {
        self.dice.random.reads()
    }

    pub fn new() -> (r: CommandM)
        ensures
            r.draws() == 0,
    {
        CommandM { dice: Dice::new() }
    }

    /// The throw argument of a body, when the body is a `^throw` command.
    fn throw_of(body: &str) -> (r: Option<Option<String>>)
        ensures
            match r {
                Some(Some(a)) => throw_arg(body@) == Some(Some(a@)),
                Some(None) => throw_arg(body@) == Some(None::<Seq<char>>),
                None => throw_arg(body@) is None,
            },
    {
        if !has_prefix(body, "^") {
            return None;
        }
        let mut i = split_words(body);
        if i.len() == 0 {
            return None;
        }
        let c = trim_leading(i[0].as_str(), '^');
        if !same_text(c.as_str(), Dice::command()) {
            return None;
        }
        if i.len() >= 2 {
            let a = i.remove(1);
            Some(Some(a))
        } else {
            Some(None)
        }
    }

    /// Whether answering `message` with random draws cannot fail: it is no
    /// throw, or a throw that [`dice_safe`] allows. On the others a throw
    /// divides by zero or, for some draws, overflows the sum.
    pub fn can_answer(message: &SendMessage) -> (r: bool)
        ensures
            r == command_safe(*message),
    {
        match &message.body {
            Some(b) => match CommandM::throw_of(b.as_str()) {
                Some(Some(a)) => throw_is_safe(Some(a.as_str())),
                Some(None) => throw_is_safe(None),
                None => true,
            },
            None => true,
        }
    }

    /// The answer to `message` when the dice draw the random numbers
    /// `draws`.
    pub fn answer(message: &SendMessage, draws: &Vec<u64>) -> (r: Option<SendMessage>)
        requires
            command_draws_fit(*message, draws@),
            draws@.len() == command_draws(*message),
        ensures
            answers(*message, r, command_outcome(*message, draws@)),
    {
        let body = match &message.body {
            Some(b) => b,
            None => {
                return None;
            },
        };
        let text = match CommandM::throw_of(body.as_str()) {
            Some(Some(a)) => Dice::reply(Some(a.as_str()), draws),
            Some(None) => Dice::reply(None, draws),
            None => {
                return None;
            },
        };
        Some(make_reply(message, text))
    }

    /// Answers `message`, drawing the random numbers that a throw needs.
    pub fn call(&mut self, message: SendMessage) -> (r: Option<SendMessage>)
        requires
            command_safe(message),
        ensures
            exists|draws: Seq<u64>|
                #![trigger command_outcome(message, draws)]
                draws.len() == command_draws(message) && answers(
                    message,
                    r,
                    command_outcome(message, draws),
                ),
            final(self).draws() == old(self).draws() + command_draws(message),
    {
        let body = match &message.body {
            Some(b) => b,
            None => {
                assert(command_draws(message) == 0 && answers(
                    message,
                    None,
                    command_outcome(message, Seq::<u64>::empty()),
                ));
                return None;
            },
        };
        let thrown = CommandM::throw_of(body.as_str());
        let ghost arg: Option<Seq<char>> = match &thrown {
            Some(Some(a)) => Some(a@),
            _ => None,
        };
        let text = match &thrown {
            Some(Some(a)) => self.dice.call(Some(a.as_str())),
            Some(None) => self.dice.call(None),
            None => {
                assert(command_draws(message) == 0 && answers(
                    message,
                    None,
                    command_outcome(message, Seq::<u64>::empty()),
                ));
                return None;
            },
        };
        let r = make_reply(&message, text);
        proof {
            let d = choose|d: Seq<u64>| d.len() == needed_draws(arg) && text@ == dice_reply(arg, d);
            assert(command_outcome(message, d) == Some(text@));
        }
        Some(r)
    }
}

} // verus!
