//! The number-guessing game: the secret, reading a guess, comparing it, and
//! the decisions of each turn.  The terminal dialogue is run by the program
//! around it, which hands each line the player types to `Game::play_turn`.

use vstd::prelude::*;
use vstd::string::*;
use std::cmp::Ordering;
use rand::Rng;
use crate::text::{parse_u32, parse_u32_spec, trim, trim_str};

verus! {

/// A number drawn from `low..=high`.
///
/// Trusted: calls `rand::thread_rng().gen_range(low..=high)`.  rand documents
/// that `gen_range` returns a value in the given range and panics only when
/// the range is empty, which `requires` rules out.  Which value comes out is
/// chance, so nothing more is stated.
#[verifier::external_body]
fn random_in_range(low: u32, high: u32) -> (r: u32)
    requires
        low <= high,
    ensures
        low <= r <= high,
{
    rand::thread_rng().gen_range(low..=high)
}

/// A random secret number from 1 to 100.
pub fn generate_secret() -> (n: u32)
    ensures
        1 <= n <= 100,
{
    random_in_range(1, 100)
}

/// The message for a blank guess.
pub open spec fn empty_input_message() -> Seq<char> {
    "输入为空，请输入一个数字"@
}

/// The message for a guess `t` that is not a number.
pub open spec fn not_a_number_message(t: Seq<char>) -> Seq<char> {
    "'"@ + t + "' 不是一个有效的数字，请输入 1-100 之间的整数"@
}

/// What a typed guess reads as: the input is trimmed; blank input and input
/// that is not a `u32` are refused with a message.
pub open spec fn guess_result(input: Seq<char>) -> Result<u32, Seq<char>> {
    let t = trim(input);
    if t.len() == 0 {
        Err(empty_input_message())
    } else {
        match parse_u32_spec(t) {
            Some(n) => Ok(n),
            None => Err(not_a_number_message(t)),
        }
    }
}

/// Reads a guess from the player's input.
pub fn parse_guess(input: &str) -> (r: Result<u32, String>)
    ensures
        r is Ok <==> guess_result(input@) is Ok,
        r matches Ok(n) ==> guess_result(input@) == Ok::<u32, Seq<char>>(n),
        r matches Err(m) ==> guess_result(input@) == Err::<u32, Seq<char>>(m@),
{
    let trimmed = trim_str(input);
    if trimmed.is_empty() {
        return Err(String::from_str("输入为空，请输入一个数字"));
    }
    match parse_u32(trimmed) {
        Some(num) => Ok(num),
        None => {
            let mut msg = String::from_str("'");
            msg.append(trimmed);
            msg.append("' 不是一个有效的数字，请输入 1-100 之间的整数");
            Err(msg)
        },
    }
}

/// How the guess compares with the secret.
pub fn check_guess(guess: u32, secret: u32) -> (o: Ordering)
    ensures
        (o == Ordering::Less) == (guess < secret),
        (o == Ordering::Equal) == (guess == secret),
        (o == Ordering::Greater) == (guess > secret),
{
    if guess < secret {
        Ordering::Less
    } else if guess == secret {
        Ordering::Equal
    } else {
        Ordering::Greater
    }
}

/// The verdict on the number of attempts a win took.
pub open spec fn performance_text(attempts: u32) -> Seq<char> {
    if attempts == 1 {
        "🌟 一次就中！你是天才！理论最优解！"@
    } else if 2 <= attempts <= 3 {
        "👏 非常厉害！你很快找到了答案。"@
    } else if 4 <= attempts <= 7 {
        "👍 不错的表现！在合理范围内。"@
    } else if 8 <= attempts <= 12 {
        "😊 还可以，继续练习会更好。"@
    } else {
        "💪 继续加油！试试二分查找策略？"@
    }
}

/// The verdict on the number of attempts a win took.
pub fn performance_message(attempts: u32) -> (s: &'static str)
    ensures
        s@ == performance_text(attempts),
{
    if attempts == 1 {
        "🌟 一次就中！你是天才！理论最优解！"
    } else if 2 <= attempts && attempts <= 3 {
        "👏 非常厉害！你很快找到了答案。"
    } else if 4 <= attempts && attempts <= 7 {
        "👍 不错的表现！在合理范围内。"
    } else if 8 <= attempts && attempts <= 12 {
        "😊 还可以，继续练习会更好。"
    } else {
        "💪 继续加油！试试二分查找策略？"
    }
}

/// What one turn of the game came to.
pub enum Turn {
    /// The input was not a number; the message says why.
    NotANumber(String),
    /// The number is outside 1 to 100.
    OutOfRange,
    /// The guess is below the secret; with a hint.
    TooSmall(&'static str),
    /// The guess is above the secret; with a hint.
    TooBig(&'static str),
    /// The guess is the secret.
    Correct,
}

/// The hint for a guess below the secret.
pub open spec fn small_hint(guess: u32) -> Seq<char> {
    if guess < 10 { "试试大一点的数"@ } else { "往上猜"@ }
}

/// The hint for a guess above the secret.
pub open spec fn big_hint(guess: u32) -> Seq<char> {
    if guess > 90 { "试试小一点的数"@ } else { "往下猜"@ }
}

/// A game in progress: the secret and the number of attempts so far.
pub struct Game {
    /// The number to guess, from 1 to 100.
    pub secret: u32,
    /// The turns played so far.
    pub attempts: u32,
}

impl Game {
    /// A new game with a random secret and no attempts.
    pub fn new() -> (g: Game)
        ensures
            1 <= g.secret <= 100,
            g.attempts == 0,
    {
        Game { secret: generate_secret(), attempts: 0 }
    }

    /// A new game with the given secret.
    pub fn with_secret(secret: u32) -> (g: Game)
        ensures
            g.secret == secret,
            g.attempts == 0,
    {
        Game { secret, attempts: 0 }
    }

    /// Plays one turn on the player's input line: every turn counts as an
    /// attempt; the input is read as a guess, checked to be within 1 to 100,
    /// and compared with the secret.
    pub fn play_turn(&mut self, input: &str) -> (t: Turn)
        requires
            old(self).attempts < u32::MAX,
        ensures
            final(self).secret == old(self).secret,
            final(self).attempts == old(self).attempts + 1,
            match guess_result(input@) {
                Err(m) => t matches Turn::NotANumber(s) && s@ == m,
                Ok(g) => if !(1 <= g <= 100) {
                    t is OutOfRange
                } else if g < old(self).secret {
                    t matches Turn::TooSmall(h) && h@ == small_hint(g)
                } else if g > old(self).secret {
                    t matches Turn::TooBig(h) && h@ == big_hint(g)
                } else {
                    t is Correct
                },
            },
    {
        self.attempts = self.attempts + 1;
        let guess = match parse_guess(input) {
            Ok(num) => num,
            Err(msg) => {
                return Turn::NotANumber(msg);
            },
        };
        if !(1 <= guess && guess <= 100) {
            return Turn::OutOfRange;
        }
        match check_guess(guess, self.secret) {
            Ordering::Less => {
                let hint = if guess < 10 { "试试大一点的数" } else { "往上猜" };
                Turn::TooSmall(hint)
            },
            Ordering::Greater => {
                let hint = if guess > 90 { "试试小一点的数" } else { "往下猜" };
                Turn::TooBig(hint)
            },
            Ordering::Equal => Turn::Correct,
        }
    }
}

} // verus!
