//! Texts the server sends to players: chat lines, join and death notices,
//! and numbers written in decimal.

use vstd::prelude::*;
use rand::prelude::IndexedRandom;

verus! {

/// Decimal digit `d` as a character.
pub open spec fn digit_char(d: nat) -> char {
    if d == 0 { '0' } else if d == 1 { '1' } else if d == 2 { '2' } else if d == 3 { '3' }
    else if d == 4 { '4' } else if d == 5 { '5' } else if d == 6 { '6' } else if d == 7 { '7' }
    else if d == 8 { '8' } else { '9' }
}

/// `n` written in decimal, without leading zeros.
pub open spec fn decimal(n: nat) -> Seq<char>
    decreases n,
{
    if n < 10 {
        seq![digit_char(n)]
    } else {
        decimal(n / 10) + seq![digit_char(n % 10)]
    }
}

fn digit_str(d: u64) -> (r: &'static str)
    requires
        d < 10,
    ensures
        r@ == seq![digit_char(d as nat)],
{
    if d == 0 { proof { reveal_strlit("0"); } "0" }
    else if d == 1 { proof { reveal_strlit("1"); } "1" }
    else if d == 2 { proof { reveal_strlit("2"); } "2" }
    else if d == 3 { proof { reveal_strlit("3"); } "3" }
    else if d == 4 { proof { reveal_strlit("4"); } "4" }
    else if d == 5 { proof { reveal_strlit("5"); } "5" }
    else if d == 6 { proof { reveal_strlit("6"); } "6" }
    else if d == 7 { proof { reveal_strlit("7"); } "7" }
    else if d == 8 { proof { reveal_strlit("8"); } "8" }
    else { proof { reveal_strlit("9"); } "9" }
}

/// Appends `n` in decimal to `s` (what `{}` formatting of an unsigned
/// integer writes).
pub fn push_decimal(s: &mut String, n: u64)
    ensures
        final(s)@ == old(s)@ + decimal(n as nat),
    decreases n,
{
    if n >= 10 {
        push_decimal(s, n / 10);
    }
    s.append(digit_str(n % 10));
    proof {
        assert(old(s)@ + decimal(n as nat) =~= if n >= 10 {
            old(s)@ + decimal((n / 10) as nat) + seq![digit_char((n % 10) as nat)]
        } else {
            old(s)@ + seq![digit_char((n % 10) as nat)]
        });
    }
}

/// `a` followed by `b`.
pub fn join_strs(a: &str, b: &str) -> (r: String)
    ensures
        r@ == a@ + b@,
{
    let mut s = String::from_str(a);
    s.append(b);
    s
}

/// The chat line `<name> message`.
pub fn chat_line(name: &str, message: &str) -> (r: String)
    ensures
        r@ == "<"@ + name@ + "> "@ + message@,
{
    let mut s = String::from_str("<");
    s.append(name);
    s.append("> ");
    s.append(message);
    s
}

/// `name joined the game`, broadcast when a player joins.
pub fn join_message(name: &str) -> (r: String)
    ensures
        r@ == name@ + " joined the game"@,
{
    join_strs(name, " joined the game")
}

/// Name used for an entity without one.
pub open spec fn name_or_unknown(name: Option<Seq<char>>) -> Seq<char> {
    match name {
        Some(n) => n,
        None => "Unknown"@,
    }
}

/// What killed an entity, as far as its death message cares.
#[derive(Clone, Copy, Debug, PartialEq, Eq, Structural)]
pub enum DeathCause {
    /// Smitten by a command; `silent` deaths are not announced.
    DivineSmiting { silent: bool },
    /// Anything else.
    Other,
}

/// `IndexedRandom::choose` with the thread-local generator: one of the
/// options, picked at random; `None` only for no options.
#[verifier::external_body]
fn choose_one(options: &Vec<String>) -> (r: Option<String>)
    ensures
        options@.len() > 0 ==> r is Some,
        r matches Some(s) ==> exists|i: int| 0 <= i < options@.len() && s@ == #[trigger] options@[i]@,
{
    options.choose(&mut rand::rng()).cloned()
}

/// The announcements a divine smiting of `name` picks from, in order.
pub fn smiting_messages(name: &str) -> (r: Vec<String>)
    ensures
        r@.len() == 2,
        r@[0]@ == name@ + " was divinely smote"@,
        r@[1]@ == name@ + " was struck down by the gods"@,
{
    let mut options: Vec<String> = Vec::new();
    options.push(join_strs(name, " was divinely smote"));
    options.push(join_strs(name, " was struck down by the gods"));
    options
}

/// The death announcement for an entity named `killed_name` (`Unknown`
/// when it has none): none for a silent divine smiting; for a divine
/// smiting one of `X was divinely smote` and `X was struck down by the
/// gods`, picked at random; `X was killed` otherwise.
pub fn death_message(killed_name: Option<&str>, cause: DeathCause) -> (r: Option<String>)
    ensures
        ({
            let n = name_or_unknown(match killed_name { Some(s) => Some(s@), None => None });
            match cause {
                DeathCause::DivineSmiting { silent: true } => r is None,
                DeathCause::DivineSmiting { silent: false } => r matches Some(m) && (m@ == n + " was divinely smote"@
                    || m@ == n + " was struck down by the gods"@),
                DeathCause::Other => r matches Some(m) && m@ == n + " was killed"@,
            }
        }),
{
    if let DeathCause::DivineSmiting { silent: true } = cause {
        return None;
    }
    let name = match killed_name {
        Some(s) => s,
        None => "Unknown",
    };
    match cause {
        DeathCause::DivineSmiting { .. } => {
            let options = smiting_messages(name);
            let m = choose_one(&options);
            match m {
                Some(m) => Some(m),
                None => {
                    assert(false);
                    None
                },
            }
        },
        DeathCause::Other => Some(join_strs(name, " was killed")),
    }
}

/// Health after taking `damage`: reduced by it while it stays positive;
/// otherwise the entity is killed and its health reset to `max` (the
/// `bool` tells whether it was killed).
pub fn apply_damage(current: u16, max: u16, damage: u16) -> (r: (u16, bool))
    ensures
        current > damage ==> r == ((current - damage) as u16, false),
        current <= damage ==> r == (max, true),
{
    if current > damage {
        (current - damage, false)
    } else {
        (max, true)
    }
}

} // verus!
