use vstd::prelude::*;

verus! {

/// The messages shown to the player, oldest first.
pub struct GameLog {
    pub entries: Vec<String>,
}

impl GameLog {
    pub open spec fn view(&self) -> Seq<Seq<char>> {
        self.entries@.map_values(|s: String| s@)
    }

    /// Appends one message.
    pub fn say(&mut self, str: String)
        ensures
            final(self).entries@ == old(self).entries@.push(str),
            final(self).view() == old(self).view().push(str@),
    {
        self.entries.push(str);
        proof {
            assert(self.view() =~= old(self).view().push(str@));
        }
    }
}

/// The decimal digit character of `d`, `0 <= d < 10`.
pub open spec fn digit_char(d: int) -> char {
    if d == 0 { '0' } else if d == 1 { '1' } else if d == 2 { '2' } else if d == 3 { '3' }
    else if d == 4 { '4' } else if d == 5 { '5' } else if d == 6 { '6' } else if d == 7 { '7' }
    else if d == 8 { '8' } else { '9' }
}

/// The decimal digits of `n`, most significant first, without leading zeros.
pub open spec fn digits_of(n: nat) -> Seq<char>
    decreases n,
{
    if n < 10 {
        seq![digit_char(n as int)]
    } else {
        digits_of(n / 10).push(digit_char(n as int % 10))
    }
}

/// `n` written in decimal, with a leading `-` when negative.
pub open spec fn decimal_of(n: int) -> Seq<char> {
    if n < 0 {
        seq!['-'] + digits_of((-n) as nat)
    } else {
        digits_of(n as nat)
    }
}

fn digit_str(d: u32) -> (r: &'static str)
    requires
        d < 10,
    ensures
        r@ == seq![digit_char(d as int)],
{
    proof {
        reveal_strlit("0");
        reveal_strlit("1");
        reveal_strlit("2");
        reveal_strlit("3");
        reveal_strlit("4");
        reveal_strlit("5");
        reveal_strlit("6");
        reveal_strlit("7");
        reveal_strlit("8");
        reveal_strlit("9");
    }
    let r = if d == 0 { "0" } else if d == 1 { "1" } else if d == 2 { "2" } else if d == 3 { "3" }
    else if d == 4 { "4" } else if d == 5 { "5" } else if d == 6 { "6" } else if d == 7 { "7" }
    else if d == 8 { "8" } else { "9" };
    proof {
        assert(r@ =~= seq![digit_char(d as int)]);
    }
    r
}

fn digits(n: u32) -> (r: String)
    ensures
        r@ == digits_of(n as nat),
    decreases n,
{
    if n < 10 {
        String::from_str(digit_str(n))
    } else {
        let mut s = digits(n / 10);
        s.append(digit_str(n % 10));
        s
    }
}

/// `n` in decimal.
pub fn decimal(n: i32) -> (r: String)
    ensures
        r@ == decimal_of(n as int),
{
    if n < 0 {
        proof {
            reveal_strlit("-");
        }
        let mut s = String::from_str("-");
        let m: u32 = (-(n as i64)) as u32;
        let d = digits(m);
        s.append(d.as_str());
        s
    } else {
        digits(n as u32)
    }
}

pub open spec fn unable_to_hurt_text(attacker: Seq<char>, target: Seq<char>) -> Seq<char> {
    attacker + " is unable to hurt "@ + target
}

pub open spec fn hit_text(attacker: Seq<char>, target: Seq<char>, damage: int) -> Seq<char> {
    attacker + " hits "@ + target + ", for "@ + decimal_of(damage) + " hp"@
}

pub open spec fn picked_up_text(item: Seq<char>) -> Seq<char> {
    "You have picked up "@ + item + "."@
}

pub open spec fn drop_text(item: Seq<char>) -> Seq<char> {
    "You drop the "@ + item
}

pub open spec fn drink_text(item: Seq<char>, heal: int) -> Seq<char> {
    "You drink the "@ + item + ", healing "@ + decimal_of(heal) + " hp"@
}

pub open spec fn use_on_text(item: Seq<char>, target: Seq<char>, damage: int) -> Seq<char> {
    "You use "@ + item + " on "@ + target + ", inflicting "@ + decimal_of(damage) + " hp."@
}

pub open spec fn is_dead_text(name: Seq<char>) -> Seq<char> {
    name + " is dead"@
}

/// "<attacker> is unable to hurt <target>"
pub fn unable_to_hurt_message(attacker: &String, target: &String) -> (r: String)
    ensures
        r@ == unable_to_hurt_text(attacker@, target@),
{
    let mut s = attacker.clone();
    s.append(" is unable to hurt ");
    s.append(target.as_str());
    s
}

/// "<attacker> hits <target>, for <damage> hp"
pub fn hit_message(attacker: &String, target: &String, damage: i32) -> (r: String)
    ensures
        r@ == hit_text(attacker@, target@, damage as int),
{
    let mut s = attacker.clone();
    s.append(" hits ");
    s.append(target.as_str());
    s.append(", for ");
    let d = decimal(damage);
    s.append(d.as_str());
    s.append(" hp");
    s
}

/// "You have picked up <item>."
pub fn picked_up_message(item: &String) -> (r: String)
    ensures
        r@ == picked_up_text(item@),
{
    let mut s = String::from_str("You have picked up ");
    s.append(item.as_str());
    s.append(".");
    s
}

/// "You drop the <item>"
pub fn drop_message(item: &String) -> (r: String)
    ensures
        r@ == drop_text(item@),
{
    let mut s = String::from_str("You drop the ");
    s.append(item.as_str());
    s
}

/// "You drink the <item>, healing <heal> hp"
pub fn drink_message(item: &String, heal: i32) -> (r: String)
    ensures
        r@ == drink_text(item@, heal as int),
{
    let mut s = String::from_str("You drink the ");
    s.append(item.as_str());
    s.append(", healing ");
    let d = decimal(heal);
    s.append(d.as_str());
    s.append(" hp");
    s
}

/// "You use <item> on <target>, inflicting <damage> hp."
pub fn use_on_message(item: &String, target: &String, damage: i32) -> (r: String)
    ensures
        r@ == use_on_text(item@, target@, damage as int),
{
    let mut s = String::from_str("You use ");
    s.append(item.as_str());
    s.append(" on ");
    s.append(target.as_str());
    s.append(", inflicting ");
    let d = decimal(damage);
    s.append(d.as_str());
    s.append(" hp.");
    s
}

/// "<name> is dead"
pub fn is_dead_message(name: &String) -> (r: String)
    ensures
        r@ == is_dead_text(name@),
{
    let mut s = name.clone();
    s.append(" is dead");
    s
}

} // verus!
