//! Identities of streams and operators.
//!
//! Identities are issued in sequence by an [`IdGenerator`], so that building
//! the same graph twice gives the same identities.
use vstd::prelude::*;
use vstd::string::StringExecFns;

verus! {

/// A 128-bit identity.
#[derive(Clone, Copy, Debug, PartialEq, Eq, Hash, Structural)]
pub struct Uuid {
    pub value: u128,
}

pub type StreamId = Uuid;

pub type OperatorId = Uuid;

pub type NodeId = usize;

/// Issues identities `0, 1, 2, ...` in that order.
pub struct IdGenerator {
    next: u128,
}

impl IdGenerator {
    /// How many identities have been issued. The issued identities are those
    /// whose value is below this count.
    pub closed spec fn issued(&self) -> nat {
        self.next as nat
    }

    /// Whether `id` has been issued by this generator.
    pub open spec fn has_issued(&self, id: Uuid) -> bool {
        id.value < self.issued()
    }

    /// Whether `n` more identities can be issued.
    pub open spec fn can_issue(&self, n: nat) -> bool {
        self.issued() + n <= u128::MAX
    }

    pub fn new() -> (generator: Self)
        ensures
            generator.issued() == 0,
    {
        IdGenerator { next: 0 }
    }

    /// The number of identities that can still be issued.
    pub fn remaining(&self) -> (left: u128)
        ensures
            left == u128::MAX - self.issued(),
    {
        u128::MAX - self.next
    }

    /// Issues the next identity.
    pub fn next_id(&mut self) -> (id: Uuid)
        requires
            old(self).can_issue(1),
        ensures
            id.value == old(self).issued(),
            final(self).issued() == old(self).issued() + 1,
    {
        let id = Uuid { value: self.next };
        self.next = self.next + 1;
        id
    }
}

/// The lower-case hexadecimal digit of `d % 16`.
pub open spec fn hex_char(d: nat) -> char {
    seq![
        '0', '1', '2', '3', '4', '5', '6', '7', '8', '9', 'a', 'b', 'c', 'd', 'e', 'f',
    ][(d % 16) as int]
}

/// The `n` lowest hexadecimal digits of `v`, most significant first.
pub open spec fn hex_text(v: nat, n: nat) -> Seq<char>
    decreases n,
{
    if n == 0 {
        Seq::empty()
    } else {
        hex_text(v / 16, (n - 1) as nat).push(hex_char(v % 16))
    }
}

/// The canonical text of a 128-bit identity: 32 hexadecimal digits in groups
/// of 8, 4, 4, 4 and 12, separated by hyphens.
pub open spec fn uuid_text(v: nat) -> Seq<char> {
    hex_text(v / 0x1_0000_0000_0000_0000_0000_0000, 8).push('-')
        + hex_text(v / 0x1_0000_0000_0000_0000_0000, 4).push('-')
        + hex_text(v / 0x1_0000_0000_0000_0000, 4).push('-')
        + hex_text(v / 0x1_0000_0000_0000, 4).push('-')
        + hex_text(v, 12)
}

fn hex_str(d: u8) -> (s: &'static str)
    requires
        d < 16,
    ensures
        s@ == seq![hex_char(d as nat)],
{
    proof {
        reveal_strlit("0");
        reveal_strlit("1");
        reveal_strlit("2");
        reveal_strlit("3");
        reveal_strlit("4");
        reveal_strlit("5");
        reveal_strlit("6");
        reveal_strlit("7");
        reveal_strlit("8");
        reveal_strlit("9");
        reveal_strlit("a");
        reveal_strlit("b");
        reveal_strlit("c");
        reveal_strlit("d");
        reveal_strlit("e");
        reveal_strlit("f");
    }
    let s = match d {
        0 => "0",
        1 => "1",
        2 => "2",
        3 => "3",
        4 => "4",
        5 => "5",
        6 => "6",
        7 => "7",
        8 => "8",
        9 => "9",
        10 => "a",
        11 => "b",
        12 => "c",
        13 => "d",
        14 => "e",
        _ => "f",
    };
    assert(s@ =~= seq![hex_char(d as nat)]);
    s
}

fn push_hex(out: &mut String, v: u128, n: usize)
    ensures
        final(out)@ == old(out)@ + hex_text(v as nat, n as nat),
    decreases n,
{
    if n > 0 {
        push_hex(out, v / 16, n - 1);
        let d: u8 = (v % 16) as u8;
        out.append(hex_str(d));
        assert(out@ =~= old(out)@ + hex_text(v as nat, n as nat));
    } else {
        assert(out@ =~= old(out)@ + hex_text(v as nat, n as nat));
    }
}

fn push_hyphen(out: &mut String)
    ensures
        final(out)@ == old(out)@.push('-'),
{
    proof {
        reveal_strlit("-");
    }
    out.append("-");
    assert(out@ =~= old(out)@.push('-'));
}

impl Uuid {
    /// The canonical text of this identity.
    pub fn to_text(&self) -> (text: String)
        ensures
            text@ == uuid_text(self.value as nat),
    {
        let v = self.value;
        let mut out = String::new();
        push_hex(&mut out, v / 0x1_0000_0000_0000_0000_0000_0000, 8);
        push_hyphen(&mut out);
        push_hex(&mut out, v / 0x1_0000_0000_0000_0000_0000, 4);
        push_hyphen(&mut out);
        push_hex(&mut out, v / 0x1_0000_0000_0000_0000, 4);
        push_hyphen(&mut out);
        push_hex(&mut out, v / 0x1_0000_0000_0000, 4);
        push_hyphen(&mut out);
        push_hex(&mut out, v, 12);
        assert(out@ =~= uuid_text(v as nat));
        out
    }

    pub fn new(value: u128) -> (id: Self)
        ensures
            id.value == value,
    {
        Uuid { value }
    }

    /// Takes the next identity of `ids`.
    pub fn new_deterministic(ids: &mut IdGenerator) -> (id: Self)
        requires
            old(ids).can_issue(1),
        ensures
            id.value == old(ids).issued(),
            !old(ids).has_issued(id),
            final(ids).has_issued(id),
            final(ids).issued() == old(ids).issued() + 1,
    {
        ids.next_id()
    }
}

} // verus!
