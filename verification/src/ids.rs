//! Identifiers of agents and memories, and the calls into `uuid` that draw one and
//! write it as text.
use vstd::arithmetic::div_mod::lemma_mod_breakdown;
use vstd::prelude::*;

verus! {

/// Sixteen to the power of `n`.
pub open spec fn sixteen_to(n: nat) -> nat
    decreases n,
{
    if n == 0 {
        1
    } else {
        16 * sixteen_to((n - 1) as nat)
    }
}

/// The hexadecimal digit, in lower case, of a number below sixteen.
pub open spec fn hex_digit(n: nat) -> char {
    if n < 10 {
        (('0' as u32) + n) as char
    } else {
        (('a' as u32) + (n - 10)) as char
    }
}

/// The last `n` hexadecimal digits of a number.
pub open spec fn hex_digits(x: nat, n: nat) -> Seq<char>
    decreases n,
{
    if n == 0 {
        seq![]
    } else {
        hex_digits(x / 16, (n - 1) as nat).push(hex_digit(x % 16))
    }
}

/// The usual text of an identifier: its thirty-two hexadecimal digits in groups of
/// eight, four, four, four and twelve, with a hyphen between two groups.
pub open spec fn hyphenated(id: u128) -> Seq<char> {
    let digits = hex_digits(id as nat, 32);
    digits.subrange(0, 8) + seq!['-'] + digits.subrange(8, 12) + seq!['-'] + digits.subrange(12, 16)
        + seq!['-'] + digits.subrange(16, 20) + seq!['-'] + digits.subrange(20, 32)
}

/// Whether the identifier is marked as one drawn at random: version four of the
/// variant that RFC 9562 describes.
pub open spec fn is_random_id(id: u128) -> bool {
    &&& (id / 0x1000_0000_0000_0000_0000) % 16 == 4
    &&& (id / 0x4000_0000_0000_0000) % 4 == 2
}

/// `uuid::Uuid::new_v4`: an identifier drawn at random. What is claimed of it is that
/// it carries the version and the variant of one; which of these it is, is left to chance.
#[verifier::external_body]
fn random_uuid() -> (id: u128)
    ensures
        is_random_id(id),
{
    uuid::Uuid::new_v4().as_u128()
}

/// The `Display` of `uuid::Uuid`: the hyphenated form, in lower case.
#[verifier::external_body]
fn uuid_text(id: u128) -> (text: String)
    ensures
        text@ == hyphenated(id),
{
    uuid::Uuid::from_u128(id).to_string()
}

/// Identifies an agent.
#[derive(Debug, Clone, Copy, PartialEq, Eq, Structural)]
pub struct AgentId(pub u128);

/// Identifies a memory.
#[derive(Debug, Clone, Copy, PartialEq, Eq, Structural)]
pub struct MemoryId(pub u128);

impl AgentId {
    /// The identifier that stands for no agent.
    pub fn nil() -> (id: AgentId)
        ensures
            id == AgentId(0),
    {
        AgentId(0)
    }

    /// The identifier in its hyphenated form.
    pub fn to_text(&self) -> (text: String)
        ensures
            text@ == hyphenated(self.0),
    {
        uuid_text(self.0)
    }
}

impl MemoryId {
    /// A fresh identifier, drawn at random.
    pub fn new() -> (id: MemoryId)
        ensures
            is_random_id(id.0),
    {
        MemoryId(random_uuid())
    }

    /// The identifier in its hyphenated form.
    pub fn to_text(&self) -> (text: String)
        ensures
            text@ == hyphenated(self.0),
    {
        uuid_text(self.0)
    }
}

proof fn lemma_hex_digit_injective(m: nat, n: nat)
    requires
        m < 16,
        n < 16,
        hex_digit(m) == hex_digit(n),
    ensures
        m == n,
{
}

proof fn lemma_hex_digits_len(x: nat, n: nat)
    ensures
        hex_digits(x, n).len() == n,
    decreases n,
{
    if n > 0 {
        lemma_hex_digits_len(x / 16, (n - 1) as nat);
    }
}

proof fn lemma_hex_digits_injective(x: nat, y: nat, n: nat)
    requires
        x < sixteen_to(n),
        y < sixteen_to(n),
        hex_digits(x, n) == hex_digits(y, n),
    ensures
        x == y,
    decreases n,
{
    if n > 0 {
        let front_x = hex_digits(x / 16, (n - 1) as nat);
        let front_y = hex_digits(y / 16, (n - 1) as nat);
        assert(hex_digits(x, n).drop_last() =~= front_x);
        assert(hex_digits(y, n).drop_last() =~= front_y);
        assert(hex_digits(x, n).last() == hex_digit(x % 16));
        assert(hex_digits(y, n).last() == hex_digit(y % 16));
        lemma_hex_digit_injective(x % 16, y % 16);
        lemma_hex_digits_injective(x / 16, y / 16, (n - 1) as nat);
    }
}

/// The text of an identifier has thirty-six characters, and no two identifiers have
/// the same text.
pub proof fn law_id_text_is_injective(a: u128, b: u128)
    ensures
        hyphenated(a).len() == 36,
        hyphenated(a) == hyphenated(b) ==> a == b,
{
    let x = hex_digits(a as nat, 32);
    let y = hex_digits(b as nat, 32);
    lemma_hex_digits_len(a as nat, 32);
    lemma_hex_digits_len(b as nat, 32);
    if hyphenated(a) == hyphenated(b) {
        let s = hyphenated(a);
        let t = hyphenated(b);
        assert(s.subrange(0, 8) =~= x.subrange(0, 8));
        assert(t.subrange(0, 8) =~= y.subrange(0, 8));
        assert(s.subrange(9, 13) =~= x.subrange(8, 12));
        assert(t.subrange(9, 13) =~= y.subrange(8, 12));
        assert(s.subrange(14, 18) =~= x.subrange(12, 16));
        assert(t.subrange(14, 18) =~= y.subrange(12, 16));
        assert(s.subrange(19, 23) =~= x.subrange(16, 20));
        assert(t.subrange(19, 23) =~= y.subrange(16, 20));
        assert(s.subrange(24, 36) =~= x.subrange(20, 32));
        assert(t.subrange(24, 36) =~= y.subrange(20, 32));
        assert(x =~= x.subrange(0, 8) + x.subrange(8, 12) + x.subrange(12, 16) + x.subrange(16, 20)
            + x.subrange(20, 32));
        assert(y =~= y.subrange(0, 8) + y.subrange(8, 12) + y.subrange(12, 16) + y.subrange(16, 20)
            + y.subrange(20, 32));
        assert(sixteen_to(32) == 0x1_0000_0000_0000_0000_0000_0000_0000_0000) by {
            reveal_with_fuel(sixteen_to, 33);
        }
        lemma_hex_digits_injective(a as nat, b as nat, 32);
    }
}

/// The number that a row of hexadecimal digits stands for, hyphens left out.
pub open spec fn hex_value(digits: Seq<char>) -> nat
    decreases digits.len(),
{
    if digits.len() == 0 {
        0
    } else if digits.last() == '-' {
        hex_value(digits.drop_last())
    } else if digits.last() >= 'a' {
        (16 * hex_value(digits.drop_last()) + (digits.last() as int - 'a' as int) + 10) as nat
    } else {
        (16 * hex_value(digits.drop_last()) + (digits.last() as int - '0' as int)) as nat
    }
}

/// Whether a character is a hexadecimal digit in lower case.
pub open spec fn is_hex(c: char) -> bool {
    '0' <= c <= '9' || 'a' <= c <= 'f'
}

proof fn lemma_hex_digits_read_back(x: nat, n: nat)
    ensures
        sixteen_to(n) > 0,
        hex_value(hex_digits(x, n)) == x % sixteen_to(n),
        forall|i: int| 0 <= i < hex_digits(x, n).len() ==> is_hex(#[trigger] hex_digits(x, n)[i]),
    decreases n,
{
    if n > 0 {
        let rest = (n - 1) as nat;
        lemma_hex_digits_read_back(x / 16, rest);
        assert(hex_digits(x, n).drop_last() =~= hex_digits(x / 16, rest));
        lemma_mod_breakdown(x as int, 16, sixteen_to(rest) as int);
    }
}

/// Texts that stand for one number still do when the same text follows them.
proof fn lemma_hex_value_congruent(s: Seq<char>, t: Seq<char>, tail: Seq<char>)
    requires
        hex_value(s) == hex_value(t),
    ensures
        hex_value(s + tail) == hex_value(t + tail),
    decreases tail.len(),
{
    if tail.len() == 0 {
        assert(s + tail =~= s);
        assert(t + tail =~= t);
    } else {
        lemma_hex_value_congruent(s, t, tail.drop_last());
        assert((s + tail).drop_last() =~= s + tail.drop_last());
        assert((t + tail).drop_last() =~= t + tail.drop_last());
    }
}

/// The text of an identifier has its hyphens behind the eighth, the twelfth, the sixteenth
/// and the twentieth of its hexadecimal digits, and reads back as the identifier.
pub proof fn law_id_text_reads_back(id: u128)
    ensures
        hyphenated(id).len() == 36,
        hex_value(hyphenated(id)) == id,
        forall|i: int|
            0 <= i < 36 ==> {
                if i == 8 || i == 13 || i == 18 || i == 23 {
                    #[trigger] hyphenated(id)[i] == '-'
                } else {
                    is_hex(hyphenated(id)[i])
                }
            },
{
    let d = hex_digits(id as nat, 32);
    lemma_hex_digits_len(id as nat, 32);
    lemma_hex_digits_read_back(id as nat, 32);
    let h = seq!['-'];
    let a = d.subrange(0, 8);
    let b = a + h + d.subrange(8, 12);
    let c = b + h + d.subrange(12, 16);
    let e = c + h + d.subrange(16, 20);
    assert(hyphenated(id) =~= e + h + d.subrange(20, 32));
    assert((a + h).drop_last() =~= a);
    lemma_hex_value_congruent(a + h, a, d.subrange(8, 12));
    assert(a + d.subrange(8, 12) =~= d.subrange(0, 12));
    assert((b + h).drop_last() =~= b);
    lemma_hex_value_congruent(b + h, d.subrange(0, 12), d.subrange(12, 16));
    assert(d.subrange(0, 12) + d.subrange(12, 16) =~= d.subrange(0, 16));
    assert((c + h).drop_last() =~= c);
    lemma_hex_value_congruent(c + h, d.subrange(0, 16), d.subrange(16, 20));
    assert(d.subrange(0, 16) + d.subrange(16, 20) =~= d.subrange(0, 20));
    assert((e + h).drop_last() =~= e);
    lemma_hex_value_congruent(e + h, d.subrange(0, 20), d.subrange(20, 32));
    assert(d.subrange(0, 20) + d.subrange(20, 32) =~= d);
    assert(sixteen_to(32) == 0x1_0000_0000_0000_0000_0000_0000_0000_0000) by {
        reveal_with_fuel(sixteen_to, 33);
    }
}

}
