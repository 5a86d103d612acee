//! What the scene reads from the host's description: the per-machine
//! character sum behind the beam bias, and whether the machine runs on battery.

use vstd::prelude::*;
use vstd::string::*;

verus! {

/// Sum of the Unicode code points of `s`.
pub open spec fn code_point_sum(s: Seq<char>) -> nat
    decreases s.len(),
{
    if s.len() == 0 {
        0
    } else {
        code_point_sum(s.drop_last()) + (s.last() as nat)
    }
}

/// Two to the thirty-second: the range of a `u32`.
pub open spec fn u32_range() -> nat {
    0x1_0000_0000
}

/// Sum of the code points of the host name, wrapped into a `u32` as unsigned
/// 32-bit addition does. The scene turns it into the machine's beam bias.
pub fn host_code_sum(hostname: &str) -> (sum: u32)
    ensures
        sum == code_point_sum(hostname@) % u32_range(),
{
    let n = hostname.unicode_len();
    let mut sum: u32 = 0;
    let mut i: usize = 0;
    while i < n
        invariant
            n == hostname@.len(),
            i <= n,
            sum == code_point_sum(hostname@.take(i as int)) % u32_range(),
        decreases n - i,
    {
        let c = hostname.get_char(i);
        let code = c as u32;
        let total: u64 = sum as u64 + code as u64;
        let next: u32 = if total >= 0x1_0000_0000u64 { (total - 0x1_0000_0000u64) as u32 } else { total as u32 };
        proof {
            let before = hostname@.take(i as int);
            let after = hostname@.take(i + 1);
            assert(after.drop_last() =~= before);
            assert(after.last() == c);
            let m = u32_range() as int;
            let a = code_point_sum(before) as int;
            vstd::arithmetic::div_mod::lemma_add_mod_noop(a, code as int, m);
            vstd::arithmetic::div_mod::lemma_small_mod(code as nat, m as nat);
            vstd::arithmetic::div_mod::lemma_small_mod(next as nat, m as nat);
            if total >= 0x1_0000_0000u64 {
                vstd::arithmetic::div_mod::lemma_mod_sub_multiples_vanish(total as int, m);
            }
        }
        sum = next;
        i += 1;
    }
    assert(hostname@.take(n as int) =~= hostname@);
    sum
}

/// `needle` occurs in `hay` starting at position `at`.
pub open spec fn occurs_at(hay: Seq<char>, needle: Seq<char>, at: int) -> bool {
    0 <= at && at + needle.len() <= hay.len() && hay.subrange(at, at + needle.len()) == needle
}

/// `needle` occurs somewhere in `hay`.
pub open spec fn mentions(hay: Seq<char>, needle: Seq<char>) -> bool {
    exists|at: int| occurs_at(hay, needle, at)
}

/// Whether `needle` occurs somewhere in `hay` (an empty needle always does).
pub fn text_contains(hay: &str, needle: &str) -> (found: bool)
    ensures
        found == mentions(hay@, needle@),
{
    let hn = hay.unicode_len();
    let nn = needle.unicode_len();
    if nn > hn {
        assert forall|at: int| !occurs_at(hay@, needle@, at) by {}
        return false;
    }
    let mut at: usize = 0;
    while at <= hn - nn
        invariant
            hn == hay@.len(),
            nn == needle@.len(),
            nn <= hn,
            at <= hn - nn + 1,
            forall|p: int| 0 <= p < at ==> !occurs_at(hay@, needle@, p),
        decreases hn - nn + 1 - at,
    {
        let mut j: usize = 0;
        let mut same = true;
        while j < nn
            invariant
                hn == hay@.len(),
                nn == needle@.len(),
                at + nn <= hn,
                j <= nn,
                same == (forall|q: int| 0 <= q < j ==> hay@[at + q] == needle@[q]),
            decreases nn - j,
        {
            if hay.get_char(at + j) != needle.get_char(j) {
                same = false;
            }
            j += 1;
        }
        if same {
            assert(hay@.subrange(at as int, at + nn) =~= needle@);
            assert(occurs_at(hay@, needle@, at as int));
            return true;
        }
        proof {
            assert(!occurs_at(hay@, needle@, at as int)) by {
                if occurs_at(hay@, needle@, at as int) {
                    let q = choose|q: int| 0 <= q < nn && hay@[at + q] != needle@[q];
                    assert(hay@.subrange(at as int, at + nn)[q] == hay@[at + q]);
                }
            }
        }
        at += 1;
    }
    assert forall|p: int| !occurs_at(hay@, needle@, p) by {
        if occurs_at(hay@, needle@, p) {
            assert(0 <= p < at);
        }
    }
    false
}

/// The power status that marks a machine running on battery.
pub open spec fn battery_marker() -> Seq<char> {
    seq!['B', 'a', 't', 't', 'e', 'r', 'y']
}

/// Whether the machine runs on battery: its power status mentions "Battery".
pub fn on_battery(power_status: &str) -> (battery: bool)
    ensures
        battery == mentions(power_status@, battery_marker()),
{
    let marker = "Battery";
    proof {
        reveal_strlit("Battery");
        assert(marker@ =~= battery_marker());
    }
    text_contains(power_status, marker)
}

} // verus!
