//! The lines that the systems write to the log.

use vstd::prelude::*;
use vstd::string::StringExecFns;

verus! {

/// The character for one decimal digit.
pub open spec fn digit(d: nat) -> char {
    if d == 0 {
        '0'
    } else if d == 1 {
        '1'
    } else if d == 2 {
        '2'
    } else if d == 3 {
        '3'
    } else if d == 4 {
        '4'
    } else if d == 5 {
        '5'
    } else if d == 6 {
        '6'
    } else if d == 7 {
        '7'
    } else if d == 8 {
        '8'
    } else {
        '9'
    }
}

/// The decimal digits of `n`, most significant first.
pub open spec fn digits(n: nat) -> Seq<char>
    decreases n,
{
    if n < 10 {
        seq![digit(n)]
    } else {
        digits(n / 10).push(digit(n % 10))
    }
}

/// `n` in decimal, with a minus sign if it is negative.
pub open spec fn decimal(n: int) -> Seq<char> {
    if n < 0 {
        seq!['-'] + digits((-n) as nat)
    } else {
        digits(n as nat)
    }
}

/// An attack that did no damage.
pub open spec fn unable_text(attacker: Seq<char>, target: Seq<char>) -> Seq<char> {
    attacker + " is unable to hurt "@ + target
}

/// An attack that did `damage`.
pub open spec fn hit_text(attacker: Seq<char>, target: Seq<char>, damage: int) -> Seq<char> {
    attacker + " hits "@ + target + ", for "@ + decimal(damage) + " hp."@
}

/// The player picked `item` up.
pub open spec fn pickup_text(item: Seq<char>) -> Seq<char> {
    "You pick up the "@ + item + "."@
}

/// The player used `item` and was healed.
pub open spec fn use_text(item: Seq<char>, healed: int) -> Seq<char> {
    "You use the "@ + item + ", healing "@ + decimal(healed) + " hp."@
}

/// `hazard` was sprung.
pub open spec fn trigger_text(hazard: Seq<char>) -> Seq<char> {
    hazard + " triggers!"@
}

/// Control passed to `host`.
pub open spec fn cursed_text(host: Seq<char>) -> Seq<char> {
    "You've been cursed! You are now the "@ + host
}

/// Nothing lies where the player reached.
pub open spec fn nothing_here_text() -> Seq<char> {
    "There is nothing here to pick up."@
}

/// The player tried to descend off the exit.
pub open spec fn no_exit_text() -> Seq<char> {
    "There is no exit here!"@
}

/// The player arrived on the next level.
pub open spec fn portal_text() -> Seq<char> {
    "You reached the portal and moved on!"@
}

/// The game began.
pub open spec fn welcome_text() -> Seq<char> {
    "You enter Ekileugor"@
}

fn digit_str(d: u64) -> (s: &'static str)
    requires
        d < 10,
    ensures
        s@ == seq![digit(d as nat)],
{
    proof {
        reveal_strlit("0");
        reveal_strlit("1");
        reveal_strlit("2");
        reveal_strlit("3");
        reveal_strlit("4");
        reveal_strlit("5");
        reveal_strlit("6");
        reveal_strlit("7");
        reveal_strlit("8");
        reveal_strlit("9");
    }
    let s: &'static str = if d == 0 {
        "0"
    } else if d == 1 {
        "1"
    } else if d == 2 {
        "2"
    } else if d == 3 {
        "3"
    } else if d == 4 {
        "4"
    } else if d == 5 {
        "5"
    } else if d == 6 {
        "6"
    } else if d == 7 {
        "7"
    } else if d == 8 {
        "8"
    } else {
        "9"
    };
    assert(s@ =~= seq![digit(d as nat)]);
    s
}

fn push_digits(s: &mut String, n: u64)
    ensures
        final(s)@ == old(s)@ + digits(n as nat),
    decreases n,
{
    if n >= 10 {
        push_digits(s, n / 10);
    }
    s.append(digit_str(n % 10));
    assert(s@ =~= old(s)@ + digits(n as nat));
}

/// `n` written in decimal.
pub fn decimal_string(n: i32) -> (s: String)
    ensures
        s@ == decimal(n as int),
{
    let mut s = String::new();
    if n < 0 {
        proof {
            reveal_strlit("-");
        }
        s.append("-");
        push_digits(&mut s, (-(n as i64)) as u64);
        assert(s@ =~= decimal(n as int));
    } else {
        push_digits(&mut s, n as u64);
        assert(s@ =~= decimal(n as int));
    }
    s
}

/// The line for an attack that did no damage.
pub fn unable_message(attacker: &String, target: &String) -> (s: String)
    ensures
        s@ == unable_text(attacker@, target@),
{
    let mut s = attacker.clone();
    s.append(" is unable to hurt ");
    s.append(target.as_str());
    s
}

/// The line for an attack that did `damage`.
pub fn hit_message(attacker: &String, target: &String, damage: i32) -> (s: String)
    ensures
        s@ == hit_text(attacker@, target@, damage as int),
{
    let mut s = attacker.clone();
    s.append(" hits ");
    s.append(target.as_str());
    s.append(", for ");
    let amount = decimal_string(damage);
    s.append(amount.as_str());
    s.append(" hp.");
    s
}

/// The line for picking `item` up.
pub fn pickup_message(item: &String) -> (s: String)
    ensures
        s@ == pickup_text(item@),
{
    let mut s = String::from_str("You pick up the ");
    s.append(item.as_str());
    s.append(".");
    s
}

/// The line for using `item` and being healed.
pub fn use_message(item: &String, healed: i32) -> (s: String)
    ensures
        s@ == use_text(item@, healed as int),
{
    let mut s = String::from_str("You use the ");
    s.append(item.as_str());
    s.append(", healing ");
    let amount = decimal_string(healed);
    s.append(amount.as_str());
    s.append(" hp.");
    s
}

/// The line for `hazard` being sprung.
pub fn trigger_message(hazard: &String) -> (s: String)
    ensures
        s@ == trigger_text(hazard@),
{
    let mut s = hazard.clone();
    s.append(" triggers!");
    s
}

/// The line for control passing to `host`.
pub fn cursed_message(host: &String) -> (s: String)
    ensures
        s@ == cursed_text(host@),
{
    let mut s = String::from_str("You've been cursed! You are now the ");
    s.append(host.as_str());
    s
}

/// The line for reaching where nothing lies.
pub fn nothing_here_message() -> (s: String)
    ensures
        s@ == nothing_here_text(),
{
    String::from_str("There is nothing here to pick up.")
}

/// The line for trying to descend off the exit.
pub fn no_exit_message() -> (s: String)
    ensures
        s@ == no_exit_text(),
{
    String::from_str("There is no exit here!")
}

/// The line that opens the game.
pub fn welcome_message() -> (s: String)
    ensures
        s@ == welcome_text(),
{
    String::from_str("You enter Ekileugor")
}

/// The line for arriving on the next level.
pub fn portal_message() -> (s: String)
    ensures
        s@ == portal_text(),
{
    String::from_str("You reached the portal and moved on!")
}

} // verus!
