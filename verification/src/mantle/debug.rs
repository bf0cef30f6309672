//! Text on the kernel's debug console.
use vstd::prelude::*;
use vstd::string::StringSliceAdditionalSpecFns;
use crate::mantle::kernel;
use crate::mantle::kio;
use crate::mantle::kio::{answer_of, extends, group_extends, Answer, Event, Machine, Syscalls};

verus! {

broadcast use group_extends;

/// The step of printing the character `c`.
pub open spec fn put_char_step(c: u8, answer: Answer) -> Event {
    Event::SendRecv {
        syscall: kernel::SYS_DEBUG_PUTCHAR,
        dest: c as usize,
        info: 0,
        mr0: 0,
        mr1: 0,
        mr2: 0,
        mr3: 0,
        answer,
    }
}

/// The record `after` is the record `before` with the bytes of `text` printed one after
/// the other.
pub open spec fn printed(before: Seq<Event>, after: Seq<Event>, text: Seq<u8>) -> bool {
    &&& after.len() == before.len() + text.len()
    &&& extends(before, after)
    &&& forall|i: int|
        0 <= i < text.len() ==> #[trigger] after[before.len() + i] == put_char_step(
            text[i],
            answer_of(after[before.len() + i]),
        )
}

/// What is printed in two parts is printed as a whole.
pub proof fn lemma_printed_join(
    a: Seq<Event>,
    b: Seq<Event>,
    c: Seq<Event>,
    first: Seq<u8>,
    second: Seq<u8>,
)
    requires
        printed(a, b, first),
        printed(b, c, second),
    ensures
        printed(a, c, first + second),
{
    let text = first + second;
    assert forall|i: int| 0 <= i < text.len() implies #[trigger] c[a.len() + i] == put_char_step(
        text[i],
        answer_of(c[a.len() + i]),
    ) by {
        if i < first.len() {
            assert(c.subrange(0, b.len() as int)[a.len() + i] == c[a.len() + i]);
            assert(b[a.len() + i] == put_char_step(first[i], answer_of(b[a.len() + i])));
        } else {
            let j = i - first.len();
            assert(c[b.len() + j] == put_char_step(second[j], answer_of(c[b.len() + j])));
        }
    }
}

/// The decimal digits of `n` as characters.
pub open spec fn decimal(n: nat) -> Seq<u8>
    decreases n,
{
    if n < 10 {
        seq![(48 + n) as u8]
    } else {
        decimal(n / 10).push((48 + n % 10) as u8)
    }
}

/// The digits of `n` as it reads when taken for a signed number of the width of a
/// register: a minus sign and the digits of the distance to zero, if the top bit is
/// set.
pub open spec fn signed_decimal(n: usize) -> Seq<u8> {
    if n as int <= isize::MAX as int {
        decimal(n as nat)
    } else {
        seq![45u8] + decimal((usize::MAX as int - n as int + 1) as nat)
    }
}

/// Prints the bytes of `text`.
pub fn put_bytes<S: Syscalls>(k: &mut Machine<S>, text: &[u8])
    ensures
        printed(old(k)@, final(k)@, text@),
        extends(old(k)@, final(k)@),
{
    let mut i: usize = 0;
    while i < text.len()
        invariant
            i <= text@.len(),
            printed(old(k)@, k@, text@.take(i as int)),
        decreases text@.len() - i,
    {
        let ghost before = k@;
        kio::debug_put_char(k, text[i]);
        proof {
            assert(printed(before, k@, seq![text@[i as int]])) by {
                assert(k@[before.len() as int] == k@.last());
            }
            lemma_printed_join(old(k)@, before, k@, text@.take(i as int), seq![text@[i as int]]);
            assert(text@.take(i as int) + seq![text@[i as int]] =~= text@.take(i + 1));
        }
        i = i + 1;
    }
    assert(text@.take(text@.len() as int) =~= text@);
}

/// Prints the text `text`.
pub fn put_str<S: Syscalls>(k: &mut Machine<S>, text: &str)
    ensures
        printed(old(k)@, final(k)@, text.spec_bytes()),
        extends(old(k)@, final(k)@),
{
    put_bytes(k, text.as_bytes())
}

/// Prints the number `n` in decimal digits.
pub fn put_decimal<S: Syscalls>(k: &mut Machine<S>, n: usize)
    ensures
        printed(old(k)@, final(k)@, decimal(n as nat)),
        extends(old(k)@, final(k)@),
{
    // the digits, last first
    let mut digits: Vec<u8> = Vec::new();
    let mut rest = n;
    while rest >= 10
        invariant
            forall|lead: Seq<u8>|
                #![trigger lead + digits@.reverse()]
                decimal(rest as nat) == lead ==> decimal(n as nat) == lead + digits@.reverse(),
        decreases rest,
    {
        let ghost before = digits@;
        let ghost was = rest;
        digits.push(48 + (rest % 10) as u8);
        rest = rest / 10;
        proof {
            assert forall|lead: Seq<u8>| #![trigger lead + digits@.reverse()]
                decimal(rest as nat) == lead implies decimal(n as nat) == lead
                + digits@.reverse() by {
                let mid = lead.push((48 + was % 10) as u8);
                assert(decimal(was as nat) == mid);
                assert(decimal(n as nat) == mid + before.reverse());
                assert(digits@.reverse() =~= seq![(48 + was % 10) as u8] + before.reverse());
                assert(mid + before.reverse() =~= lead + digits@.reverse());
            }
        }
    }
    let ghost before = digits@;
    proof {
        let lead = decimal(rest as nat);
        assert(lead == seq![(48 + rest) as u8]);
        assert(decimal(n as nat) == lead + before.reverse());
    }
    digits.push(48 + rest as u8);
    proof {
        assert(digits@.reverse() =~= seq![(48 + rest) as u8] + before.reverse());
    }
    let ghost all = digits@.reverse();
    let mut i: usize = digits.len();
    while i > 0
        invariant
            i <= digits@.len(),
            all == digits@.reverse(),
            printed(old(k)@, k@, all.take(digits@.len() - i)),
        decreases i,
    {
        i = i - 1;
        let ghost before = k@;
        let ghost done = digits@.len() - i - 1;
        kio::debug_put_char(k, digits[i]);
        proof {
            assert(all[done] == digits@[i as int]);
            assert(printed(before, k@, seq![all[done]])) by {
                assert(k@[before.len() as int] == k@.last());
            }
            lemma_printed_join(old(k)@, before, k@, all.take(done), seq![all[done]]);
            assert(all.take(done) + seq![all[done]] =~= all.take(done + 1));
        }
    }
    assert(all.take(all.len() as int) =~= all);
}

/// Prints the number `n` as it reads when taken for a signed number.
pub fn put_signed<S: Syscalls>(k: &mut Machine<S>, n: usize)
    ensures
        printed(old(k)@, final(k)@, signed_decimal(n)),
        extends(old(k)@, final(k)@),
{
    if n <= isize::MAX as usize {
        put_decimal(k, n);
    } else {
        let ghost start = k@;
        kio::debug_put_char(k, 45);
        let ghost mid = k@;
        proof {
            assert(printed(start, mid, seq![45u8])) by {
                assert(mid[start.len() as int] == mid.last());
            }
        }
        put_decimal(k, usize::MAX - n + 1);
        proof {
            lemma_printed_join(
                start,
                mid,
                k@,
                seq![45u8],
                decimal((usize::MAX as int - n as int + 1) as nat),
            );
        }
    }
}

} // verus!
