//! The composition description codec: a deterministic text form for
//! `UnloadedComposition` and its parser. Every count and string is length-
//! prefixed (decimal digits, a colon, then the payload), so no character of
//! a name is ever special and parsing a serialized composition returns it
//! unchanged — see `lemma_parse_serialize_identity`.

use vstd::prelude::*;
use crate::access::{Access, AccessType};
use crate::identify::{CrateName, CustardName, DatachunkName, FullDatachunkName, FullTaskName, TaskName};
use crate::unloaded::{
    CompSpec, CrateSpec, DatachunkSpec, TaskSpec, UnloadedComposition, UnloadedCrate,
    UnloadedDatachunk, UnloadedTask,
};

verus! {

pub open spec fn is_digit_char(c: char) -> bool {
    '0' <= c <= '9'
}

pub open spec fn digit_char(d: nat) -> char {
    if d == 0 {
        '0'
    } else if d == 1 {
        '1'
    } else if d == 2 {
        '2'
    } else if d == 3 {
        '3'
    } else if d == 4 {
        '4'
    } else if d == 5 {
        '5'
    } else if d == 6 {
        '6'
    } else if d == 7 {
        '7'
    } else if d == 8 {
        '8'
    } else {
        '9'
    }
}

pub open spec fn digit_val(c: char) -> nat {
    (c as nat - '0' as nat) as nat
}

/// The decimal digits of `n`, most significant first.
pub open spec fn digits_of(n: nat) -> Seq<char>
    decreases n,
{
    if n < 10 {
        seq![digit_char(n)]
    } else {
        digits_of(n / 10).push(digit_char(n % 10))
    }
}

/// A number is written as its digits followed by a colon.
pub open spec fn ser_nat(n: nat) -> Seq<char> {
    digits_of(n) + seq![':']
}

/// The numeric value of a digit sequence.
pub open spec fn val_digits(ds: Seq<char>) -> nat
    decreases ds.len(),
{
    if ds.len() == 0 {
        0
    } else {
        val_digits(ds.drop_last()) * 10 + digit_val(ds.last())
    }
}

pub open spec fn pow10(k: nat) -> nat
    decreases k,
{
    if k == 0 {
        1nat
    } else {
        10 * pow10((k - 1) as nat)
    }
}

proof fn lemma_pow10_pos(k: nat)
    ensures
        pow10(k) >= 1,
    decreases k,
{
    if k > 0 {
        lemma_pow10_pos((k - 1) as nat);
    }
}

proof fn lemma_digits_of_value(n: nat)
    ensures
        digits_of(n).len() >= 1,
        val_digits(digits_of(n)) == n,
        forall|k: int| 0 <= k < digits_of(n).len() ==> is_digit_char(#[trigger] digits_of(n)[k]),
    decreases n,
{
    if n < 10 {
        let ds = digits_of(n);
        assert(ds == seq![digit_char(n)]);
        assert(ds.drop_last() =~= Seq::<char>::empty());
        assert(val_digits(Seq::<char>::empty()) == 0);
        assert(ds.last() == digit_char(n));
        assert(val_digits(ds) == val_digits(ds.drop_last()) * 10 + digit_val(ds.last()));
        assert(digit_val(digit_char(n)) == n) by {
            assert(n < 10);
        }
    } else {
        lemma_digits_of_value(n / 10);
        let ds = digits_of(n);
        assert(ds == digits_of(n / 10).push(digit_char(n % 10)));
        assert(ds.drop_last() =~= digits_of(n / 10));
        assert(ds.last() == digit_char(n % 10));
        assert(digit_val(digit_char(n % 10)) == n % 10) by {
            assert(n % 10 < 10);
        }
        assert(val_digits(ds) == val_digits(ds.drop_last()) * 10 + digit_val(ds.last()));
        assert(val_digits(ds.drop_last()) == n / 10);
        assert(val_digits(ds) == (n / 10) * 10 + n % 10);
        assert((n / 10) * 10 + n % 10 == n) by (nonlinear_arith);
        assert forall|k: int| 0 <= k < ds.len() implies is_digit_char(#[trigger] ds[k]) by {
            if k < ds.len() - 1 {
                assert(ds[k] == digits_of(n / 10)[k]);
            } else {
                assert(ds[k] == digit_char(n % 10));
                assert(n % 10 < 10);
            }
        }
    }
}

/// Front-to-back value bridge: the value of a digit block equals its first
/// digit scaled by the remaining width plus the value of the rest.
proof fn lemma_val_digits_front(ds: Seq<char>)
    requires
        ds.len() >= 1,
    ensures
        val_digits(ds) == digit_val(ds[0]) * pow10((ds.len() - 1) as nat) + val_digits(
            ds.drop_first(),
        ),
    decreases ds.len(),
{
    if ds.len() == 1 {
        assert(ds.drop_last() =~= Seq::<char>::empty());
        assert(ds.drop_first() =~= Seq::<char>::empty());
        assert(val_digits(Seq::<char>::empty()) == 0);
        assert(ds.last() == ds[0]);
        assert(val_digits(ds) == val_digits(ds.drop_last()) * 10 + digit_val(ds.last()));
        assert(val_digits(ds) == digit_val(ds[0]));
        assert(pow10(0) == 1);
    } else {
        let head = ds.drop_last();
        lemma_val_digits_front(head);
        assert(head[0] == ds[0]);
        assert(head.drop_first() =~= ds.drop_first().drop_last());
        assert(ds.drop_first().last() == ds.last());
        assert(val_digits(ds) == val_digits(head) * 10 + digit_val(ds.last()));
        assert(val_digits(head) == digit_val(ds[0]) * pow10((head.len() - 1) as nat) + val_digits(
            head.drop_first(),
        ));
        assert(val_digits(ds.drop_first()) == val_digits(ds.drop_first().drop_last()) * 10
            + digit_val(ds.drop_first().last()));
        assert((digit_val(ds[0]) * pow10((ds.len() - 2) as nat) + val_digits(head.drop_first()))
            * 10 == digit_val(ds[0]) * (pow10((ds.len() - 2) as nat) * 10) + val_digits(
            head.drop_first(),
        ) * 10) by (nonlinear_arith);
        assert(pow10((ds.len() - 1) as nat) == 10 * pow10((ds.len() - 2) as nat));
        assert(pow10((ds.len() - 2) as nat) * 10 == 10 * pow10((ds.len() - 2) as nat))
            by (nonlinear_arith);
        assert(val_digits(ds) == digit_val(ds[0]) * pow10((ds.len() - 1) as nat) + val_digits(
            ds.drop_first(),
        ));
    }
}

/// The digit scanner: reads digits into an accumulator until the colon.
pub open spec fn parse_digits(s: Seq<char>, i: int, acc: u64) -> Option<(u64, int)>
    decreases s.len() - i,
{
    if i < 0 || i >= s.len() {
        None
    } else if s[i] == ':' {
        Some((acc, i + 1))
    } else if is_digit_char(s[i]) {
        if acc * 10 + digit_val(s[i]) > u64::MAX {
            None
        } else {
            parse_digits(s, i + 1, (acc * 10 + digit_val(s[i])) as u64)
        }
    } else {
        None
    }
}

pub open spec fn parse_nat(s: Seq<char>, i: int) -> Option<(u64, int)> {
    if i < s.len() && is_digit_char(s[i]) {
        parse_digits(s, i, 0)
    } else {
        None
    }
}

/// Scanning a digit block followed by a colon yields the block's value on
/// top of the accumulator.
proof fn lemma_parse_digits_block(s: Seq<char>, i: int, acc: u64, b: Seq<char>)
    requires
        0 <= i,
        i + b.len() < s.len(),
        forall|k: int| 0 <= k < b.len() ==> s[i + k] == b[k],
        forall|k: int| 0 <= k < b.len() ==> is_digit_char(#[trigger] b[k]),
        s[i + b.len()] == ':',
        acc * pow10(b.len()) + val_digits(b) <= u64::MAX,
    ensures
        parse_digits(s, i, acc) == Some(
            (((acc * pow10(b.len()) + val_digits(b)) as u64), i + b.len() + 1),
        ),
    decreases b.len(),
{
    if b.len() == 0 {
        reveal_with_fuel(parse_digits, 2);
        assert(s[i] == ':');
        assert(pow10(0) == 1);
        assert(val_digits(b) == 0);
        assert(parse_digits(s, i, acc) == Some((acc, i + 1)));
        assert(acc * pow10(b.len()) + val_digits(b) == acc) by (nonlinear_arith)
            requires
                pow10(b.len()) == 1,
                val_digits(b) == 0,
        ;
    } else {
        assert(s[i] == b[0]);
        assert(is_digit_char(b[0]));
        assert(b[0] != ':');
        let d = digit_val(b[0]);
        lemma_val_digits_front(b);
        lemma_pow10_pos((b.len() - 1) as nat);
        // the new accumulator still fits
        assert(val_digits(b) == d * pow10((b.len() - 1) as nat) + val_digits(b.drop_first()));
        assert(pow10(b.len()) == 10 * pow10((b.len() - 1) as nat));
        let p1 = pow10((b.len() - 1) as nat);
        assert((acc * 10 + d) * p1 == acc * (10 * p1) + d * p1) by (nonlinear_arith);
        assert(acc * (10 * p1) + d * p1 + val_digits(b.drop_first()) == acc * pow10(b.len())
            + val_digits(b));
        assert((acc * 10 + d) * p1 + val_digits(b.drop_first()) <= u64::MAX);
        assert(acc * 10 + d <= (acc * 10 + d) * p1) by (nonlinear_arith)
            requires
                p1 >= 1,
                acc >= 0,
                d >= 0,
        ;
        assert(acc * 10 + d <= u64::MAX);
        let acc2 = (acc * 10 + d) as u64;
        let b2 = b.drop_first();
        assert forall|k: int| 0 <= k < b2.len() implies s[i + 1 + k] == b2[k] by {
            assert(b2[k] == b[k + 1]);
            assert(s[i + 1 + k] == b[k + 1]);
        }
        assert(s[i + 1 + b2.len()] == ':');
        lemma_parse_digits_block(s, i + 1, acc2, b2);
        assert(parse_digits(s, i, acc) == parse_digits(s, i + 1, acc2));
        assert(acc2 * pow10(b2.len()) + val_digits(b2) == acc * pow10(b.len()) + val_digits(b));
        assert(i + 1 + b2.len() + 1 == i + b.len() + 1);
    }
}

/// Parsing a serialized number consumes exactly it and returns its value.
proof fn lemma_parse_ser_nat(s: Seq<char>, i: int, n: u64)
    requires
        0 <= i,
        i + ser_nat(n as nat).len() <= s.len(),
        s.subrange(i, i + ser_nat(n as nat).len()) == ser_nat(n as nat),
    ensures
        parse_nat(s, i) == Some((n, i + ser_nat(n as nat).len())),
{
    let b = digits_of(n as nat);
    let w = ser_nat(n as nat);
    lemma_digits_of_value(n as nat);
    assert forall|k: int| 0 <= k < b.len() implies s[i + k] == b[k] by {
        assert(s.subrange(i, i + w.len())[k] == s[i + k]);
        assert(w[k] == b[k]);
    }
    assert(s[i + b.len()] == ':') by {
        assert(s.subrange(i, i + w.len())[b.len() as int] == s[i + b.len()]);
        assert(w[b.len() as int] == ':');
    }
    lemma_pow10_pos(b.len());
    assert(0 * pow10(b.len()) == 0) by (nonlinear_arith);
    assert(0 * pow10(b.len()) + val_digits(b) <= u64::MAX);
    lemma_parse_digits_block(s, i, 0, b);
    assert((0 * pow10(b.len()) + val_digits(b)) as u64 == n);
    assert(is_digit_char(s[i])) by {
        assert(b.len() >= 1);
        assert(s[i] == b[0]);
    }
    assert(parse_nat(s, i) == parse_digits(s, i, 0));
}


/// Characters of a serialized string: its length, then its characters raw.
pub open spec fn ser_str(v: Seq<char>) -> Seq<char> {
    ser_nat(v.len()) + v
}

pub open spec fn parse_str(s: Seq<char>, i: int) -> Option<(Seq<char>, int)> {
    match parse_nat(s, i) {
        None => None,
        Some((n, j)) => if j + n <= s.len() {
            Some((s.subrange(j, j + n), j + n))
        } else {
            None
        },
    }
}

pub open spec fn ser_bool(b: bool) -> Seq<char> {
    if b {
        seq!['t']
    } else {
        seq!['f']
    }
}

pub open spec fn parse_bool(s: Seq<char>, i: int) -> Option<(bool, int)> {
    if 0 <= i < s.len() {
        if s[i] == 't' {
            Some((true, i + 1))
        } else if s[i] == 'f' {
            Some((false, i + 1))
        } else {
            None
        }
    } else {
        None
    }
}

pub open spec fn ser_atype(t: AccessType) -> Seq<char> {
    if t == AccessType::MutableAccess {
        seq!['m']
    } else {
        seq!['i']
    }
}

pub open spec fn parse_atype(s: Seq<char>, i: int) -> Option<(AccessType, int)> {
    if 0 <= i < s.len() {
        if s[i] == 'm' {
            Some((AccessType::MutableAccess, i + 1))
        } else if s[i] == 'i' {
            Some((AccessType::ImmutableAccess, i + 1))
        } else {
            None
        }
    } else {
        None
    }
}

pub open spec fn ser_full_name(p: (Seq<char>, Seq<char>)) -> Seq<char> {
    ser_str(p.0) + ser_str(p.1)
}

pub open spec fn parse_full_name(s: Seq<char>, i: int) -> Option<((Seq<char>, Seq<char>), int)> {
    match parse_str(s, i) {
        None => None,
        Some((a, j)) => match parse_str(s, j) {
            None => None,
            Some((b, j2)) => Some(((a, b), j2)),
        },
    }
}

pub open spec fn ser_access(a: ((Seq<char>, Seq<char>), AccessType)) -> Seq<char> {
    ser_full_name(a.0) + ser_atype(a.1)
}

pub open spec fn parse_access(s: Seq<char>, i: int) -> Option<
    (((Seq<char>, Seq<char>), AccessType), int),
> {
    match parse_full_name(s, i) {
        None => None,
        Some((n, j)) => match parse_atype(s, j) {
            None => None,
            Some((t, j2)) => Some(((n, t), j2)),
        },
    }
}

pub open spec fn ser_parents(ps: Seq<(Seq<char>, Seq<char>)>, k: int) -> Seq<char>
    decreases ps.len() - k,
{
    if k < 0 || k >= ps.len() {
        Seq::empty()
    } else {
        ser_full_name(ps[k]) + ser_parents(ps, k + 1)
    }
}

pub open spec fn parse_parents(s: Seq<char>, i: int, cnt: nat) -> Option<
    (Seq<(Seq<char>, Seq<char>)>, int),
>
    decreases cnt,
{
    if cnt == 0 {
        Some((Seq::empty(), i))
    } else {
        match parse_full_name(s, i) {
            None => None,
            Some((v, j)) => match parse_parents(s, j, (cnt - 1) as nat) {
                None => None,
                Some((vs, j2)) => Some((seq![v] + vs, j2)),
            },
        }
    }
}

pub open spec fn ser_accesses(aa: Seq<((Seq<char>, Seq<char>), AccessType)>, k: int) -> Seq<char>
    decreases aa.len() - k,
{
    if k < 0 || k >= aa.len() {
        Seq::empty()
    } else {
        ser_access(aa[k]) + ser_accesses(aa, k + 1)
    }
}

pub open spec fn parse_accesses(s: Seq<char>, i: int, cnt: nat) -> Option<
    (Seq<((Seq<char>, Seq<char>), AccessType)>, int),
>
    decreases cnt,
{
    if cnt == 0 {
        Some((Seq::empty(), i))
    } else {
        match parse_access(s, i) {
            None => None,
            Some((v, j)) => match parse_accesses(s, j, (cnt - 1) as nat) {
                None => None,
                Some((vs, j2)) => Some((seq![v] + vs, j2)),
            },
        }
    }
}

pub open spec fn ser_task(t: TaskSpec) -> Seq<char> {
    ser_str(t.kind_name) + ser_str(t.deserialize_path) + ser_nat(t.parents.len()) + ser_parents(
        t.parents,
        0,
    ) + ser_nat(t.accesses.len()) + ser_accesses(t.accesses, 0) + ser_bool(t.entrypoint)
}

pub open spec fn parse_task(s: Seq<char>, i: int) -> Option<(TaskSpec, int)> {
    match parse_str(s, i) {
        None => None,
        Some((kind, j1)) => match parse_str(s, j1) {
            None => None,
            Some((path, j2)) => match parse_nat(s, j2) {
                None => None,
                Some((np, j3)) => match parse_parents(s, j3, np as nat) {
                    None => None,
                    Some((ps, j4)) => match parse_nat(s, j4) {
                        None => None,
                        Some((na, j5)) => match parse_accesses(s, j5, na as nat) {
                            None => None,
                            Some((aa, j6)) => match parse_bool(s, j6) {
                                None => None,
                                Some((e, j7)) => Some(
                                    (
                                        TaskSpec {
                                            kind_name: kind,
                                            deserialize_path: path,
                                            parents: ps,
                                            accesses: aa,
                                            entrypoint: e,
                                        },
                                        j7,
                                    ),
                                ),
                            },
                        },
                    },
                },
            },
        },
    }
}

pub open spec fn ser_datachunk(d: DatachunkSpec) -> Seq<char> {
    ser_str(d.kind_name) + ser_str(d.deserialize_path)
}

pub open spec fn parse_datachunk(s: Seq<char>, i: int) -> Option<(DatachunkSpec, int)> {
    match parse_str(s, i) {
        None => None,
        Some((kind, j1)) => match parse_str(s, j1) {
            None => None,
            Some((path, j2)) => Some(
                (DatachunkSpec { kind_name: kind, deserialize_path: path }, j2),
            ),
        },
    }
}

pub open spec fn ser_dc_entries(ds: Seq<(Seq<char>, DatachunkSpec)>, k: int) -> Seq<char>
    decreases ds.len() - k,
{
    if k < 0 || k >= ds.len() {
        Seq::empty()
    } else {
        ser_str(ds[k].0) + ser_datachunk(ds[k].1) + ser_dc_entries(ds, k + 1)
    }
}

pub open spec fn parse_dc_entries(s: Seq<char>, i: int, cnt: nat) -> Option<
    (Seq<(Seq<char>, DatachunkSpec)>, int),
>
    decreases cnt,
{
    if cnt == 0 {
        Some((Seq::empty(), i))
    } else {
        match parse_str(s, i) {
            None => None,
            Some((key, j)) => match parse_datachunk(s, j) {
                None => None,
                Some((d, j2)) => match parse_dc_entries(s, j2, (cnt - 1) as nat) {
                    None => None,
                    Some((vs, j3)) => Some((seq![(key, d)] + vs, j3)),
                },
            },
        }
    }
}

pub open spec fn ser_task_entries(ts: Seq<(Seq<char>, TaskSpec)>, k: int) -> Seq<char>
    decreases ts.len() - k,
{
    if k < 0 || k >= ts.len() {
        Seq::empty()
    } else {
        ser_str(ts[k].0) + ser_task(ts[k].1) + ser_task_entries(ts, k + 1)
    }
}

pub open spec fn parse_task_entries(s: Seq<char>, i: int, cnt: nat) -> Option<
    (Seq<(Seq<char>, TaskSpec)>, int),
>
    decreases cnt,
{
    if cnt == 0 {
        Some((Seq::empty(), i))
    } else {
        match parse_str(s, i) {
            None => None,
            Some((key, j)) => match parse_task(s, j) {
                None => None,
                Some((t, j2)) => match parse_task_entries(s, j2, (cnt - 1) as nat) {
                    None => None,
                    Some((vs, j3)) => Some((seq![(key, t)] + vs, j3)),
                },
            },
        }
    }
}

pub open spec fn ser_crate(cr: CrateSpec) -> Seq<char> {
    ser_nat(cr.datachunks.len()) + ser_dc_entries(cr.datachunks, 0) + ser_nat(cr.tasks.len())
        + ser_task_entries(cr.tasks, 0)
}

pub open spec fn parse_crate(s: Seq<char>, i: int) -> Option<(CrateSpec, int)> {
    match parse_nat(s, i) {
        None => None,
        Some((nd, j1)) => match parse_dc_entries(s, j1, nd as nat) {
            None => None,
            Some((ds, j2)) => match parse_nat(s, j2) {
                None => None,
                Some((nt, j3)) => match parse_task_entries(s, j3, nt as nat) {
                    None => None,
                    Some((ts, j4)) => Some((CrateSpec { datachunks: ds, tasks: ts }, j4)),
                },
            },
        },
    }
}

pub open spec fn ser_crate_entries(cs: Seq<(Seq<char>, CrateSpec)>, k: int) -> Seq<char>
    decreases cs.len() - k,
{
    if k < 0 || k >= cs.len() {
        Seq::empty()
    } else {
        ser_str(cs[k].0) + ser_crate(cs[k].1) + ser_crate_entries(cs, k + 1)
    }
}

pub open spec fn parse_crate_entries(s: Seq<char>, i: int, cnt: nat) -> Option<
    (Seq<(Seq<char>, CrateSpec)>, int),
>
    decreases cnt,
{
    if cnt == 0 {
        Some((Seq::empty(), i))
    } else {
        match parse_str(s, i) {
            None => None,
            Some((key, j)) => match parse_crate(s, j) {
                None => None,
                Some((cr, j2)) => match parse_crate_entries(s, j2, (cnt - 1) as nat) {
                    None => None,
                    Some((vs, j3)) => Some((seq![(key, cr)] + vs, j3)),
                },
            },
        }
    }
}

pub open spec fn ser_children(ch: Seq<Seq<char>>, k: int) -> Seq<char>
    decreases ch.len() - k,
{
    if k < 0 || k >= ch.len() {
        Seq::empty()
    } else {
        ser_str(ch[k]) + ser_children(ch, k + 1)
    }
}

pub open spec fn parse_children(s: Seq<char>, i: int, cnt: nat) -> Option<(Seq<Seq<char>>, int)>
    decreases cnt,
{
    if cnt == 0 {
        Some((Seq::empty(), i))
    } else {
        match parse_str(s, i) {
            None => None,
            Some((v, j)) => match parse_children(s, j, (cnt - 1) as nat) {
                None => None,
                Some((vs, j2)) => Some((seq![v] + vs, j2)),
            },
        }
    }
}

/// The whole composition: its crates, then the child-crate names.
pub open spec fn ser_comp(c: CompSpec) -> Seq<char> {
    ser_nat(c.crates.len()) + ser_crate_entries(c.crates, 0) + ser_nat(c.children.len())
        + ser_children(c.children, 0)
}

pub open spec fn parse_comp(s: Seq<char>, i: int) -> Option<(CompSpec, int)> {
    match parse_nat(s, i) {
        None => None,
        Some((ncr, j1)) => match parse_crate_entries(s, j1, ncr as nat) {
            None => None,
            Some((cs, j2)) => match parse_nat(s, j2) {
                None => None,
                Some((nch, j3)) => match parse_children(s, j3, nch as nat) {
                    None => None,
                    Some((ch, j4)) => Some((CompSpec { crates: cs, children: ch }, j4)),
                },
            },
        },
    }
}

/// Every count the serializer would write for this composition fits in a
/// machine word. Compositions held in memory always do.
pub open spec fn codec_bounded(c: CompSpec) -> bool {
    &&& c.crates.len() <= u64::MAX
    &&& c.children.len() <= u64::MAX
    &&& forall|k: int| 0 <= k < c.children.len() ==> (#[trigger] c.children[k]).len() <= u64::MAX
    &&& forall|k: int|
        0 <= k < c.crates.len() ==> (#[trigger] c.crates[k]).0.len() <= u64::MAX
            && crate_bounded(c.crates[k].1)
}

pub open spec fn crate_bounded(cr: CrateSpec) -> bool {
    &&& cr.datachunks.len() <= u64::MAX
    &&& cr.tasks.len() <= u64::MAX
    &&& forall|k: int|
        0 <= k < cr.datachunks.len() ==> (#[trigger] cr.datachunks[k]).0.len() <= u64::MAX
            && dc_bounded(cr.datachunks[k].1)
    &&& forall|k: int|
        0 <= k < cr.tasks.len() ==> (#[trigger] cr.tasks[k]).0.len() <= u64::MAX && task_bounded(
            cr.tasks[k].1,
        )
}

pub open spec fn dc_bounded(d: DatachunkSpec) -> bool {
    d.kind_name.len() <= u64::MAX && d.deserialize_path.len() <= u64::MAX
}

pub open spec fn task_bounded(t: TaskSpec) -> bool {
    &&& t.kind_name.len() <= u64::MAX
    &&& t.deserialize_path.len() <= u64::MAX
    &&& t.parents.len() <= u64::MAX
    &&& t.accesses.len() <= u64::MAX
    &&& forall|k: int|
        0 <= k < t.parents.len() ==> (#[trigger] t.parents[k]).0.len() <= u64::MAX && t.parents[
            k
        ].1.len() <= u64::MAX
    &&& forall|k: int|
        0 <= k < t.accesses.len() ==> (#[trigger] t.accesses[k]).0.0.len() <= u64::MAX
            && t.accesses[k].0.1.len() <= u64::MAX
}

/// A serialized prefix splits into its two parts.
proof fn lemma_split(s: Seq<char>, i: int, a: Seq<char>, b: Seq<char>)
    requires
        0 <= i,
        i + a.len() + b.len() <= s.len(),
        s.subrange(i, i + a.len() + b.len()) == a + b,
    ensures
        s.subrange(i, i + a.len()) == a,
        s.subrange(i + a.len(), i + a.len() + b.len()) == b,
{
    let w = s.subrange(i, i + a.len() + b.len());
    assert forall|k: int| 0 <= k < a.len() implies s.subrange(i, i + a.len())[k] == a[k] by {
        assert(s.subrange(i, i + a.len())[k] == s[i + k]);
        assert(w[k] == s[i + k]);
        assert(w[k] == (a + b)[k]);
    }
    assert(s.subrange(i, i + a.len()) =~= a);
    assert forall|k: int| 0 <= k < b.len() implies s.subrange(
        i + a.len(),
        i + a.len() + b.len(),
    )[k] == b[k] by {
        assert(s.subrange(i + a.len(), i + a.len() + b.len())[k] == s[i + a.len() + k]);
        assert(w[a.len() + k] == s[i + a.len() + k]);
        assert(w[a.len() + k] == (a + b)[a.len() + k]);
    }
    assert(s.subrange(i + a.len(), i + a.len() + b.len()) =~= b);
}

proof fn lemma_parse_ser_str(s: Seq<char>, i: int, v: Seq<char>)
    requires
        0 <= i,
        v.len() <= u64::MAX,
        i + ser_str(v).len() <= s.len(),
        s.subrange(i, i + ser_str(v).len()) == ser_str(v),
    ensures
        parse_str(s, i) == Some((v, i + ser_str(v).len())),
{
    let a = ser_nat(v.len());
    lemma_split(s, i, a, v);
    lemma_parse_ser_nat(s, i, v.len() as u64);
    assert(parse_nat(s, i) == Some((v.len() as u64, i + a.len())));
    assert(s.subrange(i + a.len(), i + a.len() + v.len()) == v);
}

proof fn lemma_parse_ser_bool(s: Seq<char>, i: int, v: bool)
    requires
        0 <= i,
        i + ser_bool(v).len() <= s.len(),
        s.subrange(i, i + ser_bool(v).len()) == ser_bool(v),
    ensures
        parse_bool(s, i) == Some((v, i + 1)),
{
    assert(s[i] == s.subrange(i, i + 1)[0]);
}

proof fn lemma_parse_ser_atype(s: Seq<char>, i: int, v: AccessType)
    requires
        0 <= i,
        i + ser_atype(v).len() <= s.len(),
        s.subrange(i, i + ser_atype(v).len()) == ser_atype(v),
    ensures
        parse_atype(s, i) == Some((v, i + 1)),
{
    assert(s[i] == s.subrange(i, i + 1)[0]);
}

proof fn lemma_parse_ser_full_name(s: Seq<char>, i: int, v: (Seq<char>, Seq<char>))
    requires
        0 <= i,
        v.0.len() <= u64::MAX,
        v.1.len() <= u64::MAX,
        i + ser_full_name(v).len() <= s.len(),
        s.subrange(i, i + ser_full_name(v).len()) == ser_full_name(v),
    ensures
        parse_full_name(s, i) == Some((v, i + ser_full_name(v).len())),
{
    let a = ser_str(v.0);
    let b = ser_str(v.1);
    lemma_split(s, i, a, b);
    lemma_parse_ser_str(s, i, v.0);
    lemma_parse_ser_str(s, i + a.len(), v.1);
}

proof fn lemma_parse_ser_access(s: Seq<char>, i: int, v: ((Seq<char>, Seq<char>), AccessType))
    requires
        0 <= i,
        v.0.0.len() <= u64::MAX,
        v.0.1.len() <= u64::MAX,
        i + ser_access(v).len() <= s.len(),
        s.subrange(i, i + ser_access(v).len()) == ser_access(v),
    ensures
        parse_access(s, i) == Some((v, i + ser_access(v).len())),
{
    let a = ser_full_name(v.0);
    let b = ser_atype(v.1);
    lemma_split(s, i, a, b);
    lemma_parse_ser_full_name(s, i, v.0);
    lemma_parse_ser_atype(s, i + a.len(), v.1);
}

proof fn lemma_parse_ser_parents(s: Seq<char>, i: int, ps: Seq<(Seq<char>, Seq<char>)>, k: int)
    requires
        0 <= k <= ps.len(),
        0 <= i,
        forall|k2: int|
            0 <= k2 < ps.len() ==> (#[trigger] ps[k2]).0.len() <= u64::MAX && ps[k2].1.len()
                <= u64::MAX,
        i + ser_parents(ps, k).len() <= s.len(),
        s.subrange(i, i + ser_parents(ps, k).len()) == ser_parents(ps, k),
    ensures
        parse_parents(s, i, (ps.len() - k) as nat) == Some(
            (ps.subrange(k, ps.len() as int), i + ser_parents(ps, k).len()),
        ),
    decreases ps.len() - k,
{
    if k == ps.len() {
        assert(ps.subrange(k, ps.len() as int) =~= Seq::<(Seq<char>, Seq<char>)>::empty());
    } else {
        let a = ser_full_name(ps[k]);
        let b = ser_parents(ps, k + 1);
        assert(ser_parents(ps, k) == a + b);
        lemma_split(s, i, a, b);
        lemma_parse_ser_full_name(s, i, ps[k]);
        lemma_parse_ser_parents(s, i + a.len(), ps, k + 1);
        assert(seq![ps[k]] + ps.subrange(k + 1, ps.len() as int) =~= ps.subrange(
            k,
            ps.len() as int,
        ));
        assert((ps.len() - k) as nat != 0);
        assert(((ps.len() - k) as nat - 1) as nat == (ps.len() - (k + 1)) as nat);
    }
}

proof fn lemma_parse_ser_accesses(
    s: Seq<char>,
    i: int,
    aa: Seq<((Seq<char>, Seq<char>), AccessType)>,
    k: int,
)
    requires
        0 <= k <= aa.len(),
        0 <= i,
        forall|k2: int|
            0 <= k2 < aa.len() ==> (#[trigger] aa[k2]).0.0.len() <= u64::MAX && aa[k2].0.1.len()
                <= u64::MAX,
        i + ser_accesses(aa, k).len() <= s.len(),
        s.subrange(i, i + ser_accesses(aa, k).len()) == ser_accesses(aa, k),
    ensures
        parse_accesses(s, i, (aa.len() - k) as nat) == Some(
            (aa.subrange(k, aa.len() as int), i + ser_accesses(aa, k).len()),
        ),
    decreases aa.len() - k,
{
    if k == aa.len() {
        assert(aa.subrange(k, aa.len() as int) =~= Seq::<
            ((Seq<char>, Seq<char>), AccessType),
        >::empty());
    } else {
        let a = ser_access(aa[k]);
        let b = ser_accesses(aa, k + 1);
        assert(ser_accesses(aa, k) == a + b);
        lemma_split(s, i, a, b);
        lemma_parse_ser_access(s, i, aa[k]);
        lemma_parse_ser_accesses(s, i + a.len(), aa, k + 1);
        assert(seq![aa[k]] + aa.subrange(k + 1, aa.len() as int) =~= aa.subrange(
            k,
            aa.len() as int,
        ));
        assert(((aa.len() - k) as nat - 1) as nat == (aa.len() - (k + 1)) as nat);
    }
}

proof fn lemma_parse_ser_task(s: Seq<char>, i: int, t: TaskSpec)
    requires
        0 <= i,
        task_bounded(t),
        i + ser_task(t).len() <= s.len(),
        s.subrange(i, i + ser_task(t).len()) == ser_task(t),
    ensures
        parse_task(s, i) == Some((t, i + ser_task(t).len())),
{
    let p1 = ser_str(t.kind_name);
    let p2 = ser_str(t.deserialize_path);
    let p3 = ser_nat(t.parents.len());
    let p4 = ser_parents(t.parents, 0);
    let p5 = ser_nat(t.accesses.len());
    let p6 = ser_accesses(t.accesses, 0);
    let p7 = ser_bool(t.entrypoint);
    let w = ser_task(t);
    assert(w =~= p1 + (p2 + (p3 + (p4 + (p5 + (p6 + p7))))));
    let i1 = i + p1.len();
    let i2 = i1 + p2.len();
    let i3 = i2 + p3.len();
    let i4 = i3 + p4.len();
    let i5 = i4 + p5.len();
    let i6 = i5 + p6.len();
    let i7 = i6 + p7.len();
    lemma_split(s, i, p1, p2 + (p3 + (p4 + (p5 + (p6 + p7)))));
    lemma_parse_ser_str(s, i, t.kind_name);
    lemma_split(s, i1, p2, p3 + (p4 + (p5 + (p6 + p7))));
    lemma_parse_ser_str(s, i1, t.deserialize_path);
    lemma_split(s, i2, p3, p4 + (p5 + (p6 + p7)));
    lemma_parse_ser_nat(s, i2, t.parents.len() as u64);
    lemma_split(s, i3, p4, p5 + (p6 + p7));
    lemma_parse_ser_parents(s, i3, t.parents, 0);
    assert(t.parents.subrange(0, t.parents.len() as int) =~= t.parents);
    lemma_split(s, i4, p5, p6 + p7);
    lemma_parse_ser_nat(s, i4, t.accesses.len() as u64);
    lemma_split(s, i5, p6, p7);
    lemma_parse_ser_accesses(s, i5, t.accesses, 0);
    assert(t.accesses.subrange(0, t.accesses.len() as int) =~= t.accesses);
    lemma_parse_ser_bool(s, i6, t.entrypoint);
    assert(parse_task(s, i) == Some(
        (
            TaskSpec {
                kind_name: t.kind_name,
                deserialize_path: t.deserialize_path,
                parents: t.parents,
                accesses: t.accesses,
                entrypoint: t.entrypoint,
            },
            i7,
        ),
    ));
    assert(TaskSpec {
        kind_name: t.kind_name,
        deserialize_path: t.deserialize_path,
        parents: t.parents,
        accesses: t.accesses,
        entrypoint: t.entrypoint,
    } =~= t);
}

proof fn lemma_parse_ser_datachunk(s: Seq<char>, i: int, d: DatachunkSpec)
    requires
        0 <= i,
        dc_bounded(d),
        i + ser_datachunk(d).len() <= s.len(),
        s.subrange(i, i + ser_datachunk(d).len()) == ser_datachunk(d),
    ensures
        parse_datachunk(s, i) == Some((d, i + ser_datachunk(d).len())),
{
    let a = ser_str(d.kind_name);
    let b = ser_str(d.deserialize_path);
    lemma_split(s, i, a, b);
    lemma_parse_ser_str(s, i, d.kind_name);
    lemma_parse_ser_str(s, i + a.len(), d.deserialize_path);
    assert(DatachunkSpec { kind_name: d.kind_name, deserialize_path: d.deserialize_path } =~= d);
}

proof fn lemma_parse_ser_dc_entries(s: Seq<char>, i: int, ds: Seq<(Seq<char>, DatachunkSpec)>, k: int)
    requires
        0 <= k <= ds.len(),
        0 <= i,
        forall|k2: int|
            0 <= k2 < ds.len() ==> (#[trigger] ds[k2]).0.len() <= u64::MAX && dc_bounded(
                ds[k2].1,
            ),
        i + ser_dc_entries(ds, k).len() <= s.len(),
        s.subrange(i, i + ser_dc_entries(ds, k).len()) == ser_dc_entries(ds, k),
    ensures
        parse_dc_entries(s, i, (ds.len() - k) as nat) == Some(
            (ds.subrange(k, ds.len() as int), i + ser_dc_entries(ds, k).len()),
        ),
    decreases ds.len() - k,
{
    if k == ds.len() {
        assert(ds.subrange(k, ds.len() as int) =~= Seq::<(Seq<char>, DatachunkSpec)>::empty());
    } else {
        let a = ser_str(ds[k].0);
        let b = ser_datachunk(ds[k].1);
        let c = ser_dc_entries(ds, k + 1);
        assert(ser_dc_entries(ds, k) =~= a + (b + c));
        lemma_split(s, i, a, b + c);
        lemma_parse_ser_str(s, i, ds[k].0);
        lemma_split(s, i + a.len(), b, c);
        lemma_parse_ser_datachunk(s, i + a.len(), ds[k].1);
        lemma_parse_ser_dc_entries(s, i + a.len() + b.len(), ds, k + 1);
        assert(seq![(ds[k].0, ds[k].1)] + ds.subrange(k + 1, ds.len() as int) =~= ds.subrange(
            k,
            ds.len() as int,
        ));
        assert(((ds.len() - k) as nat - 1) as nat == (ds.len() - (k + 1)) as nat);
    }
}

proof fn lemma_parse_ser_task_entries(s: Seq<char>, i: int, ts: Seq<(Seq<char>, TaskSpec)>, k: int)
    requires
        0 <= k <= ts.len(),
        0 <= i,
        forall|k2: int|
            0 <= k2 < ts.len() ==> (#[trigger] ts[k2]).0.len() <= u64::MAX && task_bounded(
                ts[k2].1,
            ),
        i + ser_task_entries(ts, k).len() <= s.len(),
        s.subrange(i, i + ser_task_entries(ts, k).len()) == ser_task_entries(ts, k),
    ensures
        parse_task_entries(s, i, (ts.len() - k) as nat) == Some(
            (ts.subrange(k, ts.len() as int), i + ser_task_entries(ts, k).len()),
        ),
    decreases ts.len() - k,
{
    if k == ts.len() {
        assert(ts.subrange(k, ts.len() as int) =~= Seq::<(Seq<char>, TaskSpec)>::empty());
    } else {
        let a = ser_str(ts[k].0);
        let b = ser_task(ts[k].1);
        let c = ser_task_entries(ts, k + 1);
        assert(ser_task_entries(ts, k) =~= a + (b + c));
        lemma_split(s, i, a, b + c);
        lemma_parse_ser_str(s, i, ts[k].0);
        lemma_split(s, i + a.len(), b, c);
        lemma_parse_ser_task(s, i + a.len(), ts[k].1);
        lemma_parse_ser_task_entries(s, i + a.len() + b.len(), ts, k + 1);
        assert(seq![(ts[k].0, ts[k].1)] + ts.subrange(k + 1, ts.len() as int) =~= ts.subrange(
            k,
            ts.len() as int,
        ));
        assert(((ts.len() - k) as nat - 1) as nat == (ts.len() - (k + 1)) as nat);
    }
}

proof fn lemma_parse_ser_crate(s: Seq<char>, i: int, cr: CrateSpec)
    requires
        0 <= i,
        crate_bounded(cr),
        i + ser_crate(cr).len() <= s.len(),
        s.subrange(i, i + ser_crate(cr).len()) == ser_crate(cr),
    ensures
        parse_crate(s, i) == Some((cr, i + ser_crate(cr).len())),
{
    let p1 = ser_nat(cr.datachunks.len());
    let p2 = ser_dc_entries(cr.datachunks, 0);
    let p3 = ser_nat(cr.tasks.len());
    let p4 = ser_task_entries(cr.tasks, 0);
    let w = ser_crate(cr);
    assert(w =~= p1 + (p2 + (p3 + p4)));
    let i1 = i + p1.len();
    let i2 = i1 + p2.len();
    let i3 = i2 + p3.len();
    lemma_split(s, i, p1, p2 + (p3 + p4));
    lemma_parse_ser_nat(s, i, cr.datachunks.len() as u64);
    lemma_split(s, i1, p2, p3 + p4);
    lemma_parse_ser_dc_entries(s, i1, cr.datachunks, 0);
    assert(cr.datachunks.subrange(0, cr.datachunks.len() as int) =~= cr.datachunks);
    lemma_split(s, i2, p3, p4);
    lemma_parse_ser_nat(s, i2, cr.tasks.len() as u64);
    lemma_parse_ser_task_entries(s, i3, cr.tasks, 0);
    assert(cr.tasks.subrange(0, cr.tasks.len() as int) =~= cr.tasks);
    assert(CrateSpec { datachunks: cr.datachunks, tasks: cr.tasks } =~= cr);
}

proof fn lemma_parse_ser_crate_entries(s: Seq<char>, i: int, cs: Seq<(Seq<char>, CrateSpec)>, k: int)
    requires
        0 <= k <= cs.len(),
        0 <= i,
        forall|k2: int|
            0 <= k2 < cs.len() ==> (#[trigger] cs[k2]).0.len() <= u64::MAX && crate_bounded(
                cs[k2].1,
            ),
        i + ser_crate_entries(cs, k).len() <= s.len(),
        s.subrange(i, i + ser_crate_entries(cs, k).len()) == ser_crate_entries(cs, k),
    ensures
        parse_crate_entries(s, i, (cs.len() - k) as nat) == Some(
            (cs.subrange(k, cs.len() as int), i + ser_crate_entries(cs, k).len()),
        ),
    decreases cs.len() - k,
{
    if k == cs.len() {
        assert(cs.subrange(k, cs.len() as int) =~= Seq::<(Seq<char>, CrateSpec)>::empty());
    } else {
        let a = ser_str(cs[k].0);
        let b = ser_crate(cs[k].1);
        let c = ser_crate_entries(cs, k + 1);
        assert(ser_crate_entries(cs, k) =~= a + (b + c));
        lemma_split(s, i, a, b + c);
        lemma_parse_ser_str(s, i, cs[k].0);
        lemma_split(s, i + a.len(), b, c);
        lemma_parse_ser_crate(s, i + a.len(), cs[k].1);
        lemma_parse_ser_crate_entries(s, i + a.len() + b.len(), cs, k + 1);
        assert(seq![(cs[k].0, cs[k].1)] + cs.subrange(k + 1, cs.len() as int) =~= cs.subrange(
            k,
            cs.len() as int,
        ));
        assert(((cs.len() - k) as nat - 1) as nat == (cs.len() - (k + 1)) as nat);
    }
}

proof fn lemma_parse_ser_children(s: Seq<char>, i: int, ch: Seq<Seq<char>>, k: int)
    requires
        0 <= k <= ch.len(),
        0 <= i,
        forall|k2: int| 0 <= k2 < ch.len() ==> (#[trigger] ch[k2]).len() <= u64::MAX,
        i + ser_children(ch, k).len() <= s.len(),
        s.subrange(i, i + ser_children(ch, k).len()) == ser_children(ch, k),
    ensures
        parse_children(s, i, (ch.len() - k) as nat) == Some(
            (ch.subrange(k, ch.len() as int), i + ser_children(ch, k).len()),
        ),
    decreases ch.len() - k,
{
    if k == ch.len() {
        assert(ch.subrange(k, ch.len() as int) =~= Seq::<Seq<char>>::empty());
    } else {
        let a = ser_str(ch[k]);
        let b = ser_children(ch, k + 1);
        assert(ser_children(ch, k) == a + b);
        lemma_split(s, i, a, b);
        lemma_parse_ser_str(s, i, ch[k]);
        lemma_parse_ser_children(s, i + a.len(), ch, k + 1);
        assert(seq![ch[k]] + ch.subrange(k + 1, ch.len() as int) =~= ch.subrange(
            k,
            ch.len() as int,
        ));
        assert(((ch.len() - k) as nat - 1) as nat == (ch.len() - (k + 1)) as nat);
    }
}

proof fn lemma_parse_ser_comp(s: Seq<char>, i: int, c: CompSpec)
    requires
        0 <= i,
        codec_bounded(c),
        i + ser_comp(c).len() <= s.len(),
        s.subrange(i, i + ser_comp(c).len()) == ser_comp(c),
    ensures
        parse_comp(s, i) == Some((c, i + ser_comp(c).len())),
{
    let p1 = ser_nat(c.crates.len());
    let p2 = ser_crate_entries(c.crates, 0);
    let p3 = ser_nat(c.children.len());
    let p4 = ser_children(c.children, 0);
    let w = ser_comp(c);
    assert(w =~= p1 + (p2 + (p3 + p4)));
    let i1 = i + p1.len();
    let i2 = i1 + p2.len();
    let i3 = i2 + p3.len();
    lemma_split(s, i, p1, p2 + (p3 + p4));
    lemma_parse_ser_nat(s, i, c.crates.len() as u64);
    lemma_split(s, i1, p2, p3 + p4);
    lemma_parse_ser_crate_entries(s, i1, c.crates, 0);
    assert(c.crates.subrange(0, c.crates.len() as int) =~= c.crates);
    lemma_split(s, i2, p3, p4);
    lemma_parse_ser_nat(s, i2, c.children.len() as u64);
    lemma_parse_ser_children(s, i3, c.children, 0);
    assert(c.children.subrange(0, c.children.len() as int) =~= c.children);
    assert(CompSpec { crates: c.crates, children: c.children } =~= c);
}

/// Law: parsing is a left inverse of serialization. For any composition
/// whose counts fit in a machine word, parsing its serialized text yields
/// the composition back, consuming the whole text.
pub proof fn lemma_parse_serialize_identity(c: CompSpec)
    requires
        codec_bounded(c),
    ensures
        parse_comp(ser_comp(c), 0) == Some((c, ser_comp(c).len() as int)),
{
    let s = ser_comp(c);
    assert(s.subrange(0, s.len() as int) =~= s);
    lemma_parse_ser_comp(s, 0, c);
}

/// The decimal digit `d` as a one-character string.
fn digit_str(d: u64) -> (r: &'static str)
    requires
        d < 10,
    ensures
        r@ == seq![digit_char(d as nat)],
{
    proof {
        reveal_strlit("0");
        reveal_strlit("1");
        reveal_strlit("2");
        reveal_strlit("3");
        reveal_strlit("4");
        reveal_strlit("5");
        reveal_strlit("6");
        reveal_strlit("7");
        reveal_strlit("8");
        reveal_strlit("9");
    }
    let r = if d == 0 {
        "0"
    } else if d == 1 {
        "1"
    } else if d == 2 {
        "2"
    } else if d == 3 {
        "3"
    } else if d == 4 {
        "4"
    } else if d == 5 {
        "5"
    } else if d == 6 {
        "6"
    } else if d == 7 {
        "7"
    } else if d == 8 {
        "8"
    } else {
        "9"
    };
    proof {
        assert(r@ =~= seq![digit_char(d as nat)]);
    }
    r
}

/// Append the decimal digits of `n`.
fn push_digits(out: &mut String, n: u64)
    ensures
        final(out)@ == old(out)@ + digits_of(n as nat),
    decreases n,
{
    if n < 10 {
        out.append(digit_str(n));
        proof {
            assert(final(out)@ =~= old(out)@ + digits_of(n as nat));
        }
    } else {
        push_digits(out, n / 10);
        out.append(digit_str(n % 10));
        proof {
            assert(digits_of(n as nat) == digits_of((n as nat) / 10).push(
                digit_char((n as nat) % 10),
            ));
            assert((n / 10) as nat == (n as nat) / 10);
            assert((n % 10) as nat == (n as nat) % 10);
            assert(final(out)@ =~= old(out)@ + digits_of(n as nat));
        }
    }
}

/// Append a serialized number: digits, then the colon.
fn push_nat(out: &mut String, n: u64)
    ensures
        final(out)@ == old(out)@ + ser_nat(n as nat),
{
    proof {
        reveal_strlit(":");
    }
    push_digits(out, n);
    out.append(":");
    proof {
        assert(final(out)@ =~= old(out)@ + ser_nat(n as nat));
    }
}

/// Append a serialized string: its character count, then its characters.
fn push_str_enc(out: &mut String, v: &str)
    ensures
        final(out)@ == old(out)@ + ser_str(v@),
{
    let l = v.unicode_len();
    push_nat(out, l as u64);
    out.append(v);
    proof {
        assert((l as u64) as nat == v@.len());
        assert(final(out)@ =~= old(out)@ + ser_str(v@));
    }
}

fn push_full_task_name(out: &mut String, v: &FullTaskName)
    ensures
        final(out)@ == old(out)@ + ser_full_name(v@),
{
    push_str_enc(out, v.crate_name.get());
    push_str_enc(out, v.task_name.get());
    proof {
        assert(final(out)@ =~= old(out)@ + ser_full_name(v@));
    }
}

fn push_access(out: &mut String, v: &Access)
    ensures
        final(out)@ == old(out)@ + ser_access((v.of@, v.mut_immut)),
{
    proof {
        reveal_strlit("m");
        reveal_strlit("i");
    }
    push_str_enc(out, v.of.crate_name.get());
    push_str_enc(out, v.of.datachunk_name.get());
    match v.mut_immut {
        AccessType::MutableAccess => out.append("m"),
        AccessType::ImmutableAccess => out.append("i"),
    }
    proof {
        assert(ser_full_name(v.of@) == ser_str(v.of.crate_name@) + ser_str(v.of.datachunk_name@));
        assert(final(out)@ =~= old(out)@ + ser_access((v.of@, v.mut_immut)));
    }
}

fn push_task(out: &mut String, t: &UnloadedTask)
    ensures
        final(out)@ == old(out)@ + ser_task(t@),
{
    let ghost base = out@;
    push_str_enc(out, t.kind_name.as_str());
    push_str_enc(out, t.deserialize_path.as_str());
    let np = t.parents.len();
    push_nat(out, np as u64);
    let ghost psv = t@.parents;
    for k in 0..np
        invariant
            np == t.parents.len(),
            psv == t@.parents,
            psv.len() == np,
            out@ + ser_parents(psv, k as int) == base + ser_str(t@.kind_name) + ser_str(
                t@.deserialize_path,
            ) + ser_nat(psv.len()) + ser_parents(psv, 0),
    {
        proof {
            assert(psv[k as int] == t.parents[k as int]@);
            assert(ser_parents(psv, k as int) == ser_full_name(psv[k as int]) + ser_parents(
                psv,
                k as int + 1,
            ));
        }
        let ghost pre = out@;
        push_full_task_name(out, &t.parents[k]);
        proof {
            assert(out@ + ser_parents(psv, k as int + 1) =~= pre + ser_parents(psv, k as int));
        }
    }
    proof {
        assert(ser_parents(psv, np as int) =~= Seq::<char>::empty());
        assert(out@ =~= out@ + ser_parents(psv, np as int));
    }
    let na = t.accesses.len();
    push_nat(out, na as u64);
    let ghost aav = t@.accesses;
    let ghost base2 = out@;
    for k in 0..na
        invariant
            na == t.accesses.len(),
            aav == t@.accesses,
            aav.len() == na,
            out@ + ser_accesses(aav, k as int) == base2 + ser_accesses(aav, 0),
    {
        proof {
            assert(aav[k as int] == (t.accesses[k as int].of@, t.accesses[k as int].mut_immut));
            assert(ser_accesses(aav, k as int) == ser_access(aav[k as int]) + ser_accesses(
                aav,
                k as int + 1,
            ));
        }
        let ghost pre = out@;
        push_access(out, &t.accesses[k]);
        proof {
            assert(out@ + ser_accesses(aav, k as int + 1) =~= pre + ser_accesses(aav, k as int));
        }
    }
    proof {
        assert(ser_accesses(aav, na as int) =~= Seq::<char>::empty());
        assert(out@ =~= out@ + ser_accesses(aav, na as int));
    }
    proof {
        reveal_strlit("t");
        reveal_strlit("f");
    }
    if t.entrypoint {
        out.append("t");
    } else {
        out.append("f");
    }
    proof {
        assert(final(out)@ =~= base + ser_task(t@));
    }
}

fn push_datachunk(out: &mut String, d: &UnloadedDatachunk)
    ensures
        final(out)@ == old(out)@ + ser_datachunk(d@),
{
    push_str_enc(out, d.kind_name.as_str());
    push_str_enc(out, d.deserialize_path.as_str());
    proof {
        assert(final(out)@ =~= old(out)@ + ser_datachunk(d@));
    }
}

fn push_crate(out: &mut String, cr: &UnloadedCrate)
    ensures
        final(out)@ == old(out)@ + ser_crate(cr@),
{
    let ghost base = out@;
    let nd = cr.datachunks.len();
    push_nat(out, nd as u64);
    let ghost dsv = cr@.datachunks;
    for k in 0..nd
        invariant
            nd == cr.datachunks.len(),
            dsv == cr@.datachunks,
            dsv.len() == nd,
            out@ + ser_dc_entries(dsv, k as int) == base + ser_nat(dsv.len()) + ser_dc_entries(
                dsv,
                0,
            ),
    {
        proof {
            assert(dsv[k as int] == (cr.datachunks[k as int].0@, cr.datachunks[k as int].1@));
            assert(ser_dc_entries(dsv, k as int) == ser_str(dsv[k as int].0) + ser_datachunk(
                dsv[k as int].1,
            ) + ser_dc_entries(dsv, k as int + 1));
        }
        let ghost pre = out@;
        push_str_enc(out, cr.datachunks[k].0.get());
        push_datachunk(out, &cr.datachunks[k].1);
        proof {
            assert(out@ + ser_dc_entries(dsv, k as int + 1) =~= pre + ser_dc_entries(
                dsv,
                k as int,
            ));
        }
    }
    proof {
        assert(ser_dc_entries(dsv, nd as int) =~= Seq::<char>::empty());
        assert(out@ =~= out@ + ser_dc_entries(dsv, nd as int));
    }
    let nt = cr.tasks.len();
    push_nat(out, nt as u64);
    let ghost tsv = cr@.tasks;
    let ghost base2 = out@;
    for k in 0..nt
        invariant
            nt == cr.tasks.len(),
            tsv == cr@.tasks,
            tsv.len() == nt,
            out@ + ser_task_entries(tsv, k as int) == base2 + ser_task_entries(tsv, 0),
    {
        proof {
            assert(tsv[k as int] == (cr.tasks[k as int].0@, cr.tasks[k as int].1@));
            assert(ser_task_entries(tsv, k as int) == ser_str(tsv[k as int].0) + ser_task(
                tsv[k as int].1,
            ) + ser_task_entries(tsv, k as int + 1));
        }
        let ghost pre = out@;
        push_str_enc(out, cr.tasks[k].0.get());
        push_task(out, &cr.tasks[k].1);
        proof {
            assert(out@ + ser_task_entries(tsv, k as int + 1) =~= pre + ser_task_entries(
                tsv,
                k as int,
            ));
        }
    }
    proof {
        assert(ser_task_entries(tsv, nt as int) =~= Seq::<char>::empty());
        assert(final(out)@ =~= base + ser_crate(cr@));
    }
}

impl UnloadedComposition {
    /// Serialize a composition to its textual description.
    pub fn serialize_composition(&self) -> (r: String)
        ensures
            r@ == ser_comp(self@),
    {
        let mut out = String::new();
        let ghost base = out@;
        let nc = self.crates.len();
        push_nat(&mut out, nc as u64);
        let ghost csv = self@.crates;
        for k in 0..nc
            invariant
                nc == self.crates.len(),
                csv == self@.crates,
                csv.len() == nc,
                out@ + ser_crate_entries(csv, k as int) == base + ser_nat(csv.len())
                    + ser_crate_entries(csv, 0),
        {
            proof {
                assert(csv[k as int] == (self.crates[k as int].0@, self.crates[k as int].1@));
                assert(ser_crate_entries(csv, k as int) == ser_str(csv[k as int].0) + ser_crate(
                    csv[k as int].1,
                ) + ser_crate_entries(csv, k as int + 1));
            }
            let ghost pre = out@;
            push_str_enc(&mut out, self.crates[k].0.get());
            push_crate(&mut out, &self.crates[k].1);
            proof {
                assert(out@ + ser_crate_entries(csv, k as int + 1) =~= pre + ser_crate_entries(
                    csv,
                    k as int,
                ));
            }
        }
        proof {
            assert(ser_crate_entries(csv, nc as int) =~= Seq::<char>::empty());
            assert(out@ =~= out@ + ser_crate_entries(csv, nc as int));
        }
        let nch = self.children.len();
        push_nat(&mut out, nch as u64);
        let ghost chv = self@.children;
        let ghost base2 = out@;
        for k in 0..nch
            invariant
                nch == self.children.len(),
                chv == self@.children,
                chv.len() == nch,
                out@ + ser_children(chv, k as int) == base2 + ser_children(chv, 0),
        {
            proof {
                assert(chv[k as int] == self.children[k as int]@);
                assert(ser_children(chv, k as int) == ser_str(chv[k as int]) + ser_children(
                    chv,
                    k as int + 1,
                ));
            }
            let ghost pre = out@;
            push_str_enc(&mut out, self.children[k].get());
            proof {
                assert(out@ + ser_children(chv, k as int + 1) =~= pre + ser_children(
                    chv,
                    k as int,
                ));
            }
        }
        proof {
            assert(ser_children(chv, nch as int) =~= Seq::<char>::empty());
            assert(out@ =~= base + ser_comp(self@));
        }
        out
    }
}

fn parse_digits_exec(s: &str, n: usize, i: usize, acc: u64) -> (r: Option<(u64, usize)>)
    requires
        n == s@.len(),
        s@.len() <= usize::MAX,
    ensures
        match r {
            Some((v, j)) => parse_digits(s@, i as int, acc) == Some((v, j as int)),
            None => parse_digits(s@, i as int, acc) is None,
        },
    decreases n - i,
{
    if i >= n {
        return None;
    }
    let c = s.get_char(i);
    if c == ':' {
        return Some((acc, i + 1));
    }
    if c >= '0' && c <= '9' {
        let d = (c as u32 - '0' as u32) as u64;
        proof {
            assert(is_digit_char(s@[i as int]));
            assert(d as nat == digit_val(s@[i as int]));
        }
        if acc > (u64::MAX - d) / 10 {
            proof {
                assert(acc * 10 + d > u64::MAX) by (nonlinear_arith)
                    requires
                        acc > (u64::MAX - d) / 10,
                        d < 10,
                ;
            }
            return None;
        }
        proof {
            assert(acc * 10 + d <= u64::MAX) by (nonlinear_arith)
                requires
                    acc <= (u64::MAX - d) / 10,
                    d < 10,
            ;
        }
        let acc2 = acc * 10 + d;
        parse_digits_exec(s, n, i + 1, acc2)
    } else {
        proof {
            assert(!is_digit_char(s@[i as int]));
            assert(s@[i as int] != ':');
        }
        None
    }
}

fn parse_nat_exec(s: &str, n: usize, i: usize) -> (r: Option<(u64, usize)>)
    requires
        n == s@.len(),
        s@.len() <= usize::MAX,
    ensures
        match r {
            Some((v, j)) => parse_nat(s@, i as int) == Some((v, j as int)) && j <= n,
            None => parse_nat(s@, i as int) is None,
        },
{
    if i >= n {
        return None;
    }
    let c = s.get_char(i);
    if c >= '0' && c <= '9' {
        let r = parse_digits_exec(s, n, i, 0);
        proof {
            if r is Some {
                lemma_parse_digits_in_range(s@, i as int, 0);
            }
        }
        r
    } else {
        None
    }
}

/// A successful digit scan never runs past the end of the text.
proof fn lemma_parse_digits_in_range(s: Seq<char>, i: int, acc: u64)
    requires
        parse_digits(s, i, acc) is Some,
    ensures
        parse_digits(s, i, acc).unwrap().1 <= s.len(),
    decreases s.len() - i,
{
    if 0 <= i < s.len() {
        if s[i] == ':' {
        } else if is_digit_char(s[i]) && acc * 10 + digit_val(s[i]) <= u64::MAX {
            lemma_parse_digits_in_range(s, i + 1, (acc * 10 + digit_val(s[i])) as u64);
        }
    }
}

fn parse_str_exec(s: &str, n: usize, i: usize) -> (r: Option<(String, usize)>)
    requires
        n == s@.len(),
        s@.len() <= usize::MAX,
    ensures
        match r {
            Some((v, j)) => parse_str(s@, i as int) == Some((v@, j as int)) && j <= n,
            None => parse_str(s@, i as int) is None,
        },
{
    let (ln, j) = match parse_nat_exec(s, n, i) {
        None => {
            return None;
        },
        Some(v) => v,
    };
    if ln > (n - j) as u64 {
        proof {
            assert(j + ln > s@.len());
        }
        return None;
    }
    let l = ln as usize;
    let sub = s.substring_char(j, j + l);
    let v = String::from_str(sub);
    proof {
        assert(v@ =~= s@.subrange(j as int, j as int + ln as int));
    }
    Some((v, j + l))
}

fn parse_bool_exec(s: &str, n: usize, i: usize) -> (r: Option<(bool, usize)>)
    requires
        n == s@.len(),
    ensures
        match r {
            Some((v, j)) => parse_bool(s@, i as int) == Some((v, j as int)) && j <= n,
            None => parse_bool(s@, i as int) is None,
        },
{
    if i >= n {
        return None;
    }
    let c = s.get_char(i);
    if c == 't' {
        Some((true, i + 1))
    } else if c == 'f' {
        Some((false, i + 1))
    } else {
        None
    }
}

fn parse_atype_exec(s: &str, n: usize, i: usize) -> (r: Option<(AccessType, usize)>)
    requires
        n == s@.len(),
    ensures
        match r {
            Some((v, j)) => parse_atype(s@, i as int) == Some((v, j as int)) && j <= n,
            None => parse_atype(s@, i as int) is None,
        },
{
    if i >= n {
        return None;
    }
    let c = s.get_char(i);
    if c == 'm' {
        Some((AccessType::MutableAccess, i + 1))
    } else if c == 'i' {
        Some((AccessType::ImmutableAccess, i + 1))
    } else {
        None
    }
}

fn parse_full_name_exec(s: &str, n: usize, i: usize) -> (r: Option<(FullTaskName, usize)>)
    requires
        n == s@.len(),
        s@.len() <= usize::MAX,
    ensures
        match r {
            Some((v, j)) => parse_full_name(s@, i as int) == Some((v@, j as int)) && j <= n,
            None => parse_full_name(s@, i as int) is None,
        },
{
    let (a, j) = match parse_str_exec(s, n, i) {
        None => {
            return None;
        },
        Some(v) => v,
    };
    let (b, j2) = match parse_str_exec(s, n, j) {
        None => {
            return None;
        },
        Some(v) => v,
    };
    Some((FullTaskName::new(a, b), j2))
}

fn parse_access_exec(s: &str, n: usize, i: usize) -> (r: Option<(Access, usize)>)
    requires
        n == s@.len(),
        s@.len() <= usize::MAX,
    ensures
        match r {
            Some((v, j)) => parse_access(s@, i as int) == Some(((v.of@, v.mut_immut), j as int))
                && j <= n,
            None => parse_access(s@, i as int) is None,
        },
{
    let (a, j) = match parse_str_exec(s, n, i) {
        None => {
            return None;
        },
        Some(v) => v,
    };
    let (b, j2) = match parse_str_exec(s, n, j) {
        None => {
            return None;
        },
        Some(v) => v,
    };
    let (t, j3) = match parse_atype_exec(s, n, j2) {
        None => {
            return None;
        },
        Some(v) => v,
    };
    Some((Access { of: FullDatachunkName::new(a, b), mut_immut: t }, j3))
}

fn parse_parents_exec(s: &str, n: usize, i: usize, cnt: u64) -> (r: Option<
    (Vec<FullTaskName>, usize),
>)
    requires
        n == s@.len(),
        s@.len() <= usize::MAX,
        i <= n,
    ensures
        match r {
            Some((v, j)) => parse_parents(s@, i as int, cnt as nat) == Some(
                (v@.map_values(|p: FullTaskName| p@), j as int),
            ) && j <= n,
            None => parse_parents(s@, i as int, cnt as nat) is None,
        },
{
    let mut out: Vec<FullTaskName> = Vec::new();
    let mut cur: usize = i;
    let mut k: u64 = 0;
    proof {
        let f = |p: FullTaskName| p@;
        assert(out@.map_values(f) =~= Seq::<(Seq<char>, Seq<char>)>::empty());
        match parse_parents(s@, i as int, cnt as nat) {
            Some((vs, j)) => {
                assert(out@.map_values(f) + vs =~= vs);
            },
            None => {},
        }
    }
    while k < cnt
        invariant
            n == s@.len(),
            s@.len() <= usize::MAX,
            k <= cnt,
            cur <= n,
            out@.len() == k,
            ({
                let f = |p: FullTaskName| p@;
                match parse_parents(s@, cur as int, (cnt - k) as nat) {
                    Some((vs, j)) => parse_parents(s@, i as int, cnt as nat) == Some(
                        (out@.map_values(f) + vs, j),
                    ),
                    None => parse_parents(s@, i as int, cnt as nat) is None,
                }
            }),
        decreases cnt - k,
    {
        let ghost pre_out = out@;
        let ghost pre_cur = cur as int;
        let (v, j) = match parse_full_name_exec(s, n, cur) {
            None => {
                return None;
            },
            Some(v) => v,
        };
        out.push(v);
        cur = j;
        k = k + 1;
        proof {
            let f = |p: FullTaskName| p@;
            assert(out@.map_values(f) =~= pre_out.map_values(f).push(out@.last()@));
            match parse_parents(s@, cur as int, (cnt - k) as nat) {
                Some((vs, j2)) => {
                    assert(parse_parents(s@, pre_cur, (cnt - (k - 1)) as nat) == Some(
                        (seq![out@.last()@] + vs, j2),
                    ));
                    assert(out@.map_values(f) + vs =~= pre_out.map_values(f) + (seq![
                        out@.last()@,
                    ] + vs));
                },
                None => {
                    assert(parse_parents(s@, pre_cur, (cnt - (k - 1)) as nat) is None);
                },
            }
        }
    }
    proof {
        assert(parse_parents(s@, cur as int, 0) == Some((
            Seq::<(Seq<char>, Seq<char>)>::empty(),
            cur as int,
        )));
        assert(out@.map_values(|p: FullTaskName| p@) + Seq::<(Seq<char>, Seq<char>)>::empty()
            =~= out@.map_values(|p: FullTaskName| p@));
    }
    Some((out, cur))
}

fn parse_accesses_exec(s: &str, n: usize, i: usize, cnt: u64) -> (r: Option<(Vec<Access>, usize)>)
    requires
        n == s@.len(),
        s@.len() <= usize::MAX,
        i <= n,
    ensures
        match r {
            Some((v, j)) => parse_accesses(s@, i as int, cnt as nat) == Some(
                (v@.map_values(|a: Access| (a.of@, a.mut_immut)), j as int),
            ) && j <= n,
            None => parse_accesses(s@, i as int, cnt as nat) is None,
        },
{
    let mut out: Vec<Access> = Vec::new();
    let mut cur: usize = i;
    let mut k: u64 = 0;
    proof {
        let f = |a: Access| (a.of@, a.mut_immut);
        assert(out@.map_values(f) =~= Seq::<((Seq<char>, Seq<char>), AccessType)>::empty());
        match parse_accesses(s@, i as int, cnt as nat) {
            Some((vs, j)) => {
                assert(out@.map_values(f) + vs =~= vs);
            },
            None => {},
        }
    }
    while k < cnt
        invariant
            n == s@.len(),
            s@.len() <= usize::MAX,
            k <= cnt,
            cur <= n,
            out@.len() == k,
            ({
                let f = |a: Access| (a.of@, a.mut_immut);
                match parse_accesses(s@, cur as int, (cnt - k) as nat) {
                    Some((vs, j)) => parse_accesses(s@, i as int, cnt as nat) == Some(
                        (out@.map_values(f) + vs, j),
                    ),
                    None => parse_accesses(s@, i as int, cnt as nat) is None,
                }
            }),
        decreases cnt - k,
    {
        let ghost pre_out = out@;
        let ghost pre_cur = cur as int;
        let (v, j) = match parse_access_exec(s, n, cur) {
            None => {
                return None;
            },
            Some(v) => v,
        };
        out.push(v);
        cur = j;
        k = k + 1;
        proof {
            let f = |a: Access| (a.of@, a.mut_immut);
            let lastv = (out@.last().of@, out@.last().mut_immut);
            assert(out@.map_values(f) =~= pre_out.map_values(f).push(lastv));
            match parse_accesses(s@, cur as int, (cnt - k) as nat) {
                Some((vs, j2)) => {
                    assert(parse_accesses(s@, pre_cur, (cnt - (k - 1)) as nat) == Some(
                        (seq![lastv] + vs, j2),
                    ));
                    assert(out@.map_values(f) + vs =~= pre_out.map_values(f) + (seq![lastv] + vs));
                },
                None => {
                    assert(parse_accesses(s@, pre_cur, (cnt - (k - 1)) as nat) is None);
                },
            }
        }
    }
    proof {
        assert(parse_accesses(s@, cur as int, 0) == Some((
            Seq::<((Seq<char>, Seq<char>), AccessType)>::empty(),
            cur as int,
        )));
        assert(out@.map_values(|a: Access| (a.of@, a.mut_immut)) + Seq::<
            ((Seq<char>, Seq<char>), AccessType),
        >::empty() =~= out@.map_values(|a: Access| (a.of@, a.mut_immut)));
    }
    Some((out, cur))
}

fn parse_task_exec(s: &str, n: usize, i: usize) -> (r: Option<(UnloadedTask, usize)>)
    requires
        n == s@.len(),
        s@.len() <= usize::MAX,
    ensures
        match r {
            Some((v, j)) => parse_task(s@, i as int) == Some((v@, j as int)) && j <= n,
            None => parse_task(s@, i as int) is None,
        },
{
    let (kind, j1) = match parse_str_exec(s, n, i) {
        None => {
            return None;
        },
        Some(v) => v,
    };
    let (path, j2) = match parse_str_exec(s, n, j1) {
        None => {
            return None;
        },
        Some(v) => v,
    };
    let (np, j3) = match parse_nat_exec(s, n, j2) {
        None => {
            return None;
        },
        Some(v) => v,
    };
    let (ps, j4) = match parse_parents_exec(s, n, j3, np) {
        None => {
            return None;
        },
        Some(v) => v,
    };
    let (na, j5) = match parse_nat_exec(s, n, j4) {
        None => {
            return None;
        },
        Some(v) => v,
    };
    let (aa, j6) = match parse_accesses_exec(s, n, j5, na) {
        None => {
            return None;
        },
        Some(v) => v,
    };
    let (e, j7) = match parse_bool_exec(s, n, j6) {
        None => {
            return None;
        },
        Some(v) => v,
    };
    let t = UnloadedTask {
        kind_name: kind,
        deserialize_path: path,
        parents: ps,
        accesses: aa,
        entrypoint: e,
    };
    proof {
        assert(parse_task(s@, i as int).unwrap().0 =~= t@);
    }
    Some((t, j7))
}

fn parse_datachunk_exec(s: &str, n: usize, i: usize) -> (r: Option<(UnloadedDatachunk, usize)>)
    requires
        n == s@.len(),
        s@.len() <= usize::MAX,
    ensures
        match r {
            Some((v, j)) => parse_datachunk(s@, i as int) == Some((v@, j as int)) && j <= n,
            None => parse_datachunk(s@, i as int) is None,
        },
{
    let (kind, j1) = match parse_str_exec(s, n, i) {
        None => {
            return None;
        },
        Some(v) => v,
    };
    let (path, j2) = match parse_str_exec(s, n, j1) {
        None => {
            return None;
        },
        Some(v) => v,
    };
    let d = UnloadedDatachunk { kind_name: kind, deserialize_path: path };
    proof {
        assert(parse_datachunk(s@, i as int).unwrap().0 =~= d@);
    }
    Some((d, j2))
}

fn parse_dc_entries_exec(s: &str, n: usize, i: usize, cnt: u64) -> (r: Option<
    (Vec<(DatachunkName, UnloadedDatachunk)>, usize),
>)
    requires
        n == s@.len(),
        s@.len() <= usize::MAX,
        i <= n,
    ensures
        match r {
            Some((v, j)) => parse_dc_entries(s@, i as int, cnt as nat) == Some(
                (
                    v@.map_values(|p: (DatachunkName, UnloadedDatachunk)| (p.0@, p.1@)),
                    j as int,
                ),
            ) && j <= n,
            None => parse_dc_entries(s@, i as int, cnt as nat) is None,
        },
{
    let mut out: Vec<(DatachunkName, UnloadedDatachunk)> = Vec::new();
    let mut cur: usize = i;
    let mut k: u64 = 0;
    proof {
        let f = |p: (DatachunkName, UnloadedDatachunk)| (p.0@, p.1@);
        assert(out@.map_values(f) =~= Seq::<(Seq<char>, DatachunkSpec)>::empty());
        match parse_dc_entries(s@, i as int, cnt as nat) {
            Some((vs, j)) => {
                assert(out@.map_values(f) + vs =~= vs);
            },
            None => {},
        }
    }
    while k < cnt
        invariant
            n == s@.len(),
            s@.len() <= usize::MAX,
            k <= cnt,
            cur <= n,
            out@.len() == k,
            ({
                let f = |p: (DatachunkName, UnloadedDatachunk)| (p.0@, p.1@);
                match parse_dc_entries(s@, cur as int, (cnt - k) as nat) {
                    Some((vs, j)) => parse_dc_entries(s@, i as int, cnt as nat) == Some(
                        (out@.map_values(f) + vs, j),
                    ),
                    None => parse_dc_entries(s@, i as int, cnt as nat) is None,
                }
            }),
        decreases cnt - k,
    {
        let ghost pre_out = out@;
        let ghost pre_cur = cur as int;
        let (key, j) = match parse_str_exec(s, n, cur) {
            None => {
                return None;
            },
            Some(v) => v,
        };
        let (d, j2) = match parse_datachunk_exec(s, n, j) {
            None => {
                return None;
            },
            Some(v) => v,
        };
        out.push((DatachunkName::new(key), d));
        cur = j2;
        k = k + 1;
        proof {
            let f = |p: (DatachunkName, UnloadedDatachunk)| (p.0@, p.1@);
            let lastv = (out@.last().0@, out@.last().1@);
            assert(out@.map_values(f) =~= pre_out.map_values(f).push(lastv));
            match parse_dc_entries(s@, cur as int, (cnt - k) as nat) {
                Some((vs, j3)) => {
                    assert(parse_dc_entries(s@, pre_cur, (cnt - (k - 1)) as nat) == Some(
                        (seq![lastv] + vs, j3),
                    ));
                    assert(out@.map_values(f) + vs =~= pre_out.map_values(f) + (seq![lastv] + vs));
                },
                None => {
                    assert(parse_dc_entries(s@, pre_cur, (cnt - (k - 1)) as nat) is None);
                },
            }
        }
    }
    proof {
        assert(parse_dc_entries(s@, cur as int, 0) == Some((
            Seq::<(Seq<char>, DatachunkSpec)>::empty(),
            cur as int,
        )));
        assert(out@.map_values(|p: (DatachunkName, UnloadedDatachunk)| (p.0@, p.1@)) + Seq::<
            (Seq<char>, DatachunkSpec),
        >::empty() =~= out@.map_values(|p: (DatachunkName, UnloadedDatachunk)| (p.0@, p.1@)));
    }
    Some((out, cur))
}

fn parse_task_entries_exec(s: &str, n: usize, i: usize, cnt: u64) -> (r: Option<
    (Vec<(TaskName, UnloadedTask)>, usize),
>)
    requires
        n == s@.len(),
        s@.len() <= usize::MAX,
        i <= n,
    ensures
        match r {
            Some((v, j)) => parse_task_entries(s@, i as int, cnt as nat) == Some(
                (v@.map_values(|p: (TaskName, UnloadedTask)| (p.0@, p.1@)), j as int),
            ) && j <= n,
            None => parse_task_entries(s@, i as int, cnt as nat) is None,
        },
{
    let mut out: Vec<(TaskName, UnloadedTask)> = Vec::new();
    let mut cur: usize = i;
    let mut k: u64 = 0;
    proof {
        let f = |p: (TaskName, UnloadedTask)| (p.0@, p.1@);
        assert(out@.map_values(f) =~= Seq::<(Seq<char>, TaskSpec)>::empty());
        match parse_task_entries(s@, i as int, cnt as nat) {
            Some((vs, j)) => {
                assert(out@.map_values(f) + vs =~= vs);
            },
            None => {},
        }
    }
    while k < cnt
        invariant
            n == s@.len(),
            s@.len() <= usize::MAX,
            k <= cnt,
            cur <= n,
            out@.len() == k,
            ({
                let f = |p: (TaskName, UnloadedTask)| (p.0@, p.1@);
                match parse_task_entries(s@, cur as int, (cnt - k) as nat) {
                    Some((vs, j)) => parse_task_entries(s@, i as int, cnt as nat) == Some(
                        (out@.map_values(f) + vs, j),
                    ),
                    None => parse_task_entries(s@, i as int, cnt as nat) is None,
                }
            }),
        decreases cnt - k,
    {
        let ghost pre_out = out@;
        let ghost pre_cur = cur as int;
        let (key, j) = match parse_str_exec(s, n, cur) {
            None => {
                return None;
            },
            Some(v) => v,
        };
        let (t, j2) = match parse_task_exec(s, n, j) {
            None => {
                return None;
            },
            Some(v) => v,
        };
        out.push((TaskName::new(key), t));
        cur = j2;
        k = k + 1;
        proof {
            let f = |p: (TaskName, UnloadedTask)| (p.0@, p.1@);
            let lastv = (out@.last().0@, out@.last().1@);
            assert(out@.map_values(f) =~= pre_out.map_values(f).push(lastv));
            match parse_task_entries(s@, cur as int, (cnt - k) as nat) {
                Some((vs, j3)) => {
                    assert(parse_task_entries(s@, pre_cur, (cnt - (k - 1)) as nat) == Some(
                        (seq![lastv] + vs, j3),
                    ));
                    assert(out@.map_values(f) + vs =~= pre_out.map_values(f) + (seq![lastv] + vs));
                },
                None => {
                    assert(parse_task_entries(s@, pre_cur, (cnt - (k - 1)) as nat) is None);
                },
            }
        }
    }
    proof {
        assert(parse_task_entries(s@, cur as int, 0) == Some((
            Seq::<(Seq<char>, TaskSpec)>::empty(),
            cur as int,
        )));
        assert(out@.map_values(|p: (TaskName, UnloadedTask)| (p.0@, p.1@)) + Seq::<
            (Seq<char>, TaskSpec),
        >::empty() =~= out@.map_values(|p: (TaskName, UnloadedTask)| (p.0@, p.1@)));
    }
    Some((out, cur))
}

fn parse_crate_exec(s: &str, n: usize, i: usize) -> (r: Option<(UnloadedCrate, usize)>)
    requires
        n == s@.len(),
        s@.len() <= usize::MAX,
    ensures
        match r {
            Some((v, j)) => parse_crate(s@, i as int) == Some((v@, j as int)) && j <= n,
            None => parse_crate(s@, i as int) is None,
        },
{
    let (nd, j1) = match parse_nat_exec(s, n, i) {
        None => {
            return None;
        },
        Some(v) => v,
    };
    let (ds, j2) = match parse_dc_entries_exec(s, n, j1, nd) {
        None => {
            return None;
        },
        Some(v) => v,
    };
    let (nt, j3) = match parse_nat_exec(s, n, j2) {
        None => {
            return None;
        },
        Some(v) => v,
    };
    let (ts, j4) = match parse_task_entries_exec(s, n, j3, nt) {
        None => {
            return None;
        },
        Some(v) => v,
    };
    let cr = UnloadedCrate { datachunks: ds, tasks: ts };
    proof {
        assert(parse_crate(s@, i as int).unwrap().0 =~= cr@);
    }
    Some((cr, j4))
}

impl UnloadedComposition {
    /// Parse a composition description. Returns `None` when the text does
    /// not parse or trailing characters remain.
    pub fn parse_composition(s: &str) -> (r: Option<UnloadedComposition>)
        ensures
            match r {
                Some(v) => parse_comp(s@, 0) == Some((v@, s@.len() as int)),
                None => forall|v: CompSpec| parse_comp(s@, 0) != Some((v, s@.len() as int)),
            },
    {
        let n = s.unicode_len();
        let (ncr, j1) = match parse_nat_exec(s, n, 0) {
            None => {
                return None;
            },
            Some(v) => v,
        };
        let (mut cs, j2) = match Self::parse_crate_entries_exec(s, n, j1, ncr) {
            None => {
                return None;
            },
            Some(v) => v,
        };
        let (nch, j3) = match parse_nat_exec(s, n, j2) {
            None => {
                return None;
            },
            Some(v) => v,
        };
        let (ch, j4) = match Self::parse_children_exec(s, n, j3, nch) {
            None => {
                return None;
            },
            Some(v) => v,
        };
        if j4 != n {
            return None;
        }
        let comp = UnloadedComposition { crates: cs, children: ch };
        proof {
            assert(parse_comp(s@, 0).unwrap().0 =~= comp@);
        }
        Some(comp)
    }

    fn parse_crate_entries_exec(s: &str, n: usize, i: usize, cnt: u64) -> (r: Option<
        (Vec<(CrateName, UnloadedCrate)>, usize),
    >)
        requires
            n == s@.len(),
            s@.len() <= usize::MAX,
            i <= n,
        ensures
            match r {
                Some((v, j)) => parse_crate_entries(s@, i as int, cnt as nat) == Some(
                    (v@.map_values(|p: (CrateName, UnloadedCrate)| (p.0@, p.1@)), j as int),
                ) && j <= n,
                None => parse_crate_entries(s@, i as int, cnt as nat) is None,
            },
    {
        let mut out: Vec<(CrateName, UnloadedCrate)> = Vec::new();
        let mut cur: usize = i;
        let mut k: u64 = 0;
        proof {
            let f = |p: (CrateName, UnloadedCrate)| (p.0@, p.1@);
            assert(out@.map_values(f) =~= Seq::<(Seq<char>, CrateSpec)>::empty());
            match parse_crate_entries(s@, i as int, cnt as nat) {
                Some((vs, j)) => {
                    assert(out@.map_values(f) + vs =~= vs);
                },
                None => {},
            }
        }
        while k < cnt
            invariant
                n == s@.len(),
                s@.len() <= usize::MAX,
                k <= cnt,
                cur <= n,
                out@.len() == k,
                ({
                    let f = |p: (CrateName, UnloadedCrate)| (p.0@, p.1@);
                    match parse_crate_entries(s@, cur as int, (cnt - k) as nat) {
                        Some((vs, j)) => parse_crate_entries(s@, i as int, cnt as nat) == Some(
                            (out@.map_values(f) + vs, j),
                        ),
                        None => parse_crate_entries(s@, i as int, cnt as nat) is None,
                    }
                }),
            decreases cnt - k,
        {
            let ghost pre_out = out@;
            let ghost pre_cur = cur as int;
            let (key, j) = match parse_str_exec(s, n, cur) {
                None => {
                    return None;
                },
                Some(v) => v,
            };
            let (cr, j2) = match parse_crate_exec(s, n, j) {
                None => {
                    return None;
                },
                Some(v) => v,
            };
            out.push((CrateName::new(key), cr));
            cur = j2;
            k = k + 1;
            proof {
                let f = |p: (CrateName, UnloadedCrate)| (p.0@, p.1@);
                let lastv = (out@.last().0@, out@.last().1@);
                assert(out@.map_values(f) =~= pre_out.map_values(f).push(lastv));
                match parse_crate_entries(s@, cur as int, (cnt - k) as nat) {
                    Some((vs, j3)) => {
                        assert(parse_crate_entries(s@, pre_cur, (cnt - (k - 1)) as nat) == Some(
                            (seq![lastv] + vs, j3),
                        ));
                        assert(out@.map_values(f) + vs =~= pre_out.map_values(f) + (seq![lastv]
                            + vs));
                    },
                    None => {
                        assert(parse_crate_entries(s@, pre_cur, (cnt - (k - 1)) as nat) is None);
                    },
                }
            }
        }
        proof {
            assert(parse_crate_entries(s@, cur as int, 0) == Some((
                Seq::<(Seq<char>, CrateSpec)>::empty(),
                cur as int,
            )));
            assert(out@.map_values(|p: (CrateName, UnloadedCrate)| (p.0@, p.1@)) + Seq::<
                (Seq<char>, CrateSpec),
            >::empty() =~= out@.map_values(|p: (CrateName, UnloadedCrate)| (p.0@, p.1@)));
        }
        Some((out, cur))
    }

    fn parse_children_exec(s: &str, n: usize, i: usize, cnt: u64) -> (r: Option<
        (Vec<CrateName>, usize),
    >)
        requires
            n == s@.len(),
            s@.len() <= usize::MAX,
            i <= n,
        ensures
            match r {
                Some((v, j)) => parse_children(s@, i as int, cnt as nat) == Some(
                    (v@.map_values(|c: CrateName| c@), j as int),
                ) && j <= n,
                None => parse_children(s@, i as int, cnt as nat) is None,
            },
    {
        let mut out: Vec<CrateName> = Vec::new();
        let mut cur: usize = i;
        let mut k: u64 = 0;
        proof {
            let f = |c: CrateName| c@;
            assert(out@.map_values(f) =~= Seq::<Seq<char>>::empty());
            match parse_children(s@, i as int, cnt as nat) {
                Some((vs, j)) => {
                    assert(out@.map_values(f) + vs =~= vs);
                },
                None => {},
            }
        }
        while k < cnt
            invariant
                n == s@.len(),
                s@.len() <= usize::MAX,
                k <= cnt,
                cur <= n,
                out@.len() == k,
                ({
                    let f = |c: CrateName| c@;
                    match parse_children(s@, cur as int, (cnt - k) as nat) {
                        Some((vs, j)) => parse_children(s@, i as int, cnt as nat) == Some(
                            (out@.map_values(f) + vs, j),
                        ),
                        None => parse_children(s@, i as int, cnt as nat) is None,
                    }
                }),
            decreases cnt - k,
        {
            let ghost pre_out = out@;
            let ghost pre_cur = cur as int;
            let (key, j) = match parse_str_exec(s, n, cur) {
                None => {
                    return None;
                },
                Some(v) => v,
            };
            out.push(CrateName::new(key));
            cur = j;
            k = k + 1;
            proof {
                let f = |c: CrateName| c@;
                let lastv = out@.last()@;
                assert(out@.map_values(f) =~= pre_out.map_values(f).push(lastv));
                match parse_children(s@, cur as int, (cnt - k) as nat) {
                    Some((vs, j3)) => {
                        assert(parse_children(s@, pre_cur, (cnt - (k - 1)) as nat) == Some(
                            (seq![lastv] + vs, j3),
                        ));
                        assert(out@.map_values(f) + vs =~= pre_out.map_values(f) + (seq![lastv]
                            + vs));
                    },
                    None => {
                        assert(parse_children(s@, pre_cur, (cnt - (k - 1)) as nat) is None);
                    },
                }
            }
        }
        proof {
            assert(parse_children(s@, cur as int, 0) == Some((
                Seq::<Seq<char>>::empty(),
                cur as int,
            )));
            assert(out@.map_values(|c: CrateName| c@) + Seq::<Seq<char>>::empty()
                =~= out@.map_values(|c: CrateName| c@));
        }
        Some((out, cur))
    }
}

} // verus!
