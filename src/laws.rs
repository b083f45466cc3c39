//! Properties of the tokenizer and of the machine's semantics.
use crate::machine::{current, exec, initial_machine, machine_ok, next, Halt, Machine, Trace, MEMORY_SIZE};
use crate::program::{balanced, close_of, delta, depth, is_instr, is_pair, lemma_pair_named, open_of, tokens};
use vstd::arithmetic::div_mod::{lemma_add_mod_noop, lemma_small_mod};
use vstd::prelude::*;

verus! {

/// `n` copies of the instruction `c`.
pub open spec fn repeat(c: char, n: nat) -> Seq<char> {
    Seq::new(n, |i: int| c)
}

/// A source with no instruction symbol tokenizes to nothing, and running that
/// empty program ends at once, with no output and the machine untouched.
pub proof fn lemma_comment_only_source(src: Seq<char>, input: Seq<u8>, steps: nat)
    requires
        forall|i: int| 0 <= i < src.len() ==> !is_instr(#[trigger] src[i]),
    ensures
        tokens(src) == Seq::<char>::empty(),
        exec(tokens(src), initial_machine(), input, steps) == (Trace {
            machine: initial_machine(),
            input,
            output: Seq::empty(),
            halt: Halt::Finished,
        }),
    decreases src.len(),
{
    if src.len() > 0 {
        let rest = src.drop_last();
        assert forall|i: int| 0 <= i < rest.len() implies !is_instr(#[trigger] rest[i]) by {
            assert(rest[i] == src[i]);
        }
        lemma_comment_only_source(rest, input, steps);
        assert(!is_instr(src[src.len() - 1]));
    }
}

proof fn lemma_mod_shift(x: int, a: int, b: int, m: int)
    requires
        0 < m,
    ensures
        ((x + a) % m + b) % m == (x + a + b) % m,
{
    lemma_add_mod_noop(x + a, b, m);
    lemma_add_mod_noop((x + a) % m, b, m);
    lemma_small_mod(((x + a) % m) as nat, m as nat);
}

/// Running the rest of a block of `+` (or of `-`) moves the current cell by
/// one per instruction, modulo 256, and touches nothing else.
proof fn lemma_cell_run(c: char, n: nat, m: Machine, input: Seq<u8>)
    requires
        c == '+' || c == '-',
        machine_ok(m),
        m.ip <= n,
    ensures
        ({
            let r = n - m.ip;
            let shift = if c == '+' { r } else { -r };
            exec(repeat(c, n), m, input, r as nat) == Trace {
                machine: Machine {
                    tape: m.tape.update(m.dp, ((current(m) + shift) % 256) as u8),
                    dp: m.dp,
                    ip: n as int,
                },
                input,
                output: Seq::empty(),
                halt: Halt::Finished,
            }
        }),
    decreases n - m.ip,
{
    let p = repeat(c, n);
    if m.ip == n {
        lemma_small_mod(current(m) as nat, 256);
        assert(m.tape.update(m.dp, ((current(m) + 0) % 256) as u8) =~= m.tape);
    } else {
        let d: int = if c == '+' { 1 } else { -1 };
        let r = n - m.ip;
        let m1 = next(p, m, 0);
        assert(p[m.ip] == c);
        assert(m1 == Machine {
            tape: m.tape.update(m.dp, ((current(m) + d) % 256) as u8),
            ip: m.ip + 1,
            ..m
        });
        lemma_cell_run(c, n, m1, input);
        lemma_mod_shift(current(m) as int, d, d * (r - 1), 256);
        assert(m1.tape.update(m.dp, ((current(m1) + d * (r - 1)) % 256) as u8) =~= m.tape.update(
            m.dp,
            ((current(m) + d * r) % 256) as u8,
        ));
        assert(Seq::<u8>::empty() + Seq::<u8>::empty() =~= Seq::<u8>::empty());
    }
}

/// A cell comes back to its value after 256 `+`, and after 256 `-`.
pub proof fn lemma_cell_wraps(m: Machine, input: Seq<u8>)
    requires
        machine_ok(m),
        m.ip == 0,
    ensures
        exec(repeat('+', 256), m, input, 256).machine.tape == m.tape,
        exec(repeat('-', 256), m, input, 256).machine.tape == m.tape,
{
    lemma_cell_run('+', 256, m, input);
    lemma_cell_run('-', 256, m, input);
    lemma_small_mod(current(m) as nat, 256);
    assert(((current(m) as int + 256) % 256) == current(m) as int % 256);
    assert(((current(m) as int - 256) % 256) == current(m) as int % 256);
    assert(m.tape.update(m.dp, current(m)) =~= m.tape);
}

/// Running the rest of a block of `>` (or of `<`) moves the data pointer by
/// one per instruction, around the tape, and touches nothing else.
proof fn lemma_pointer_run(c: char, n: nat, m: Machine, input: Seq<u8>)
    requires
        c == '>' || c == '<',
        machine_ok(m),
        m.ip <= n,
    ensures
        ({
            let r = n - m.ip;
            let shift = if c == '>' { r } else { -r };
            exec(repeat(c, n), m, input, r as nat) == Trace {
                machine: Machine {
                    tape: m.tape,
                    dp: (m.dp + shift) % (MEMORY_SIZE as int),
                    ip: n as int,
                },
                input,
                output: Seq::empty(),
                halt: Halt::Finished,
            }
        }),
    decreases n - m.ip,
{
    let p = repeat(c, n);
    let size = MEMORY_SIZE as int;
    if m.ip == n {
        lemma_small_mod(m.dp as nat, MEMORY_SIZE as nat);
    } else {
        let d: int = if c == '>' { 1 } else { -1 };
        let r = n - m.ip;
        let m1 = next(p, m, 0);
        assert(p[m.ip] == c);
        lemma_add_mod_noop(m.dp - 1, size, size);
        lemma_small_mod(0, MEMORY_SIZE as nat);
        assert(m1 == Machine { dp: (m.dp + d) % size, ip: m.ip + 1, ..m });
        lemma_pointer_run(c, n, m1, input);
        lemma_mod_shift(m.dp, d, d * (r - 1), size);
        assert(m1.dp + d * (r - 1) == (m.dp + d) % size + d * (r - 1));
        assert(Seq::<u8>::empty() + Seq::<u8>::empty() =~= Seq::<u8>::empty());
    }
}

/// The data pointer comes back to its place after as many `>` as the tape has
/// cells, and after as many `<`.
pub proof fn lemma_pointer_wraps(m: Machine, input: Seq<u8>)
    requires
        machine_ok(m),
        m.ip == 0,
    ensures
        exec(repeat('>', MEMORY_SIZE as nat), m, input, MEMORY_SIZE as nat).machine.dp == m.dp,
        exec(repeat('<', MEMORY_SIZE as nat), m, input, MEMORY_SIZE as nat).machine.dp == m.dp,
{
    lemma_pointer_run('>', MEMORY_SIZE as nat, m, input);
    lemma_pointer_run('<', MEMORY_SIZE as nat, m, input);
    let size = MEMORY_SIZE as int;
    lemma_small_mod(m.dp as nat, MEMORY_SIZE as nat);
    lemma_add_mod_noop(m.dp, size, size);
    lemma_add_mod_noop(m.dp, -size, size);
}

/// Inside `a + [ + body + ...`, the depth is that before the `[`, plus one,
/// plus the depth within `body`.
proof fn lemma_depth_in_loop(p: Seq<char>, a: Seq<char>, body: Seq<char>, t: int)
    requires
        a.len() + 1 + body.len() <= p.len(),
        p.subrange(0, a.len() as int) == a,
        p[a.len() as int] == '[',
        p.subrange(a.len() + 1int, a.len() + 1int + body.len()) == body,
        0 <= t <= body.len(),
    ensures
        depth(p, a.len() + 1 + t) == depth(p, a.len() as int) + 1 + depth(body, t),
    decreases t,
{
    if t > 0 {
        lemma_depth_in_loop(p, a, body, t - 1);
        assert(p[a.len() + 1 + t - 1] == p.subrange(a.len() + 1int, a.len() + 1int + body.len())[t - 1]);
    }
}

/// At a `[` whose cell is zero, the loop `[body]` is skipped whole: the tape
/// and the data pointer stay as they were, and the instructions that follow are
/// those that follow the same place in the program with the loop deleted.
/// The skip takes one step and writes nothing.
pub proof fn lemma_skip_zero_loop(
    a: Seq<char>,
    body: Seq<char>,
    b: Seq<char>,
    m: Machine,
    input: Seq<u8>,
    steps: nat,
)
    requires
        balanced(body),
        machine_ok(m),
        m.ip == a.len(),
        current(m) == 0,
    ensures
        ({
            let p = a + seq!['['] + body + seq![']'] + b;
            let q = a + b;
            let m2 = next(p, m, 0);
            &&& exec(p, m, input, steps + 1) == exec(p, m2, input, steps)
            &&& m2.tape == m.tape
            &&& m2.dp == m.dp
            &&& m2.ip == a.len() + body.len() + 2
            &&& p.subrange(m2.ip, p.len() as int) == q.subrange(a.len() as int, q.len() as int)
        }),
{
    let p = a + seq!['['] + body + seq![']'] + b;
    let q = a + b;
    let i = a.len() as int;
    let j = a.len() + body.len() + 1int;
    assert(p.subrange(0, i) =~= a);
    assert(p.subrange(i + 1, i + 1 + body.len()) =~= body);
    assert(p[i] == '[');
    assert(p[j] == ']');
    lemma_depth_in_loop(p, a, body, body.len() as int);
    assert(depth(p, j + 1) == depth(p, j) + delta(p[j]));
    assert forall|k: int| i < k <= j implies #[trigger] depth(p, k) > depth(p, i) by {
        lemma_depth_in_loop(p, a, body, k - i - 1);
    }
    assert(is_pair(p, i, j));
    lemma_pair_named(p, i, j);
    assert(p.subrange(j + 1, p.len() as int) =~= q.subrange(i, q.len() as int));
}

/// A machine with its instruction pointer moved by `k`.
pub open spec fn shift(m: Machine, k: int) -> Machine {
    Machine { ip: m.ip + k, ..m }
}

/// Where `b` ends the program `p` from position `o` on, depths inside it are
/// those of `b`, raised by the depth at `o`.
proof fn lemma_depth_suffix(p: Seq<char>, o: int, b: Seq<char>, t: int)
    requires
        0 <= o,
        o + b.len() == p.len(),
        p.subrange(o, p.len() as int) == b,
        0 <= t <= b.len(),
    ensures
        depth(p, o + t) == depth(p, o) + depth(b, t),
    decreases t,
{
    if t > 0 {
        lemma_depth_suffix(p, o, b, t - 1);
        assert(p[o + t - 1] == p.subrange(o, p.len() as int)[t - 1]);
    }
}

/// A pair of brackets in `b` stays a pair where `b` ends a longer program.
proof fn lemma_pair_suffix(p: Seq<char>, o: int, b: Seq<char>, i: int, j: int)
    requires
        0 <= o,
        o + b.len() == p.len(),
        p.subrange(o, p.len() as int) == b,
        is_pair(b, i, j),
    ensures
        is_pair(p, o + i, o + j),
{
    lemma_depth_suffix(p, o, b, i);
    lemma_depth_suffix(p, o, b, j + 1);
    assert forall|m: int| o + i < m <= o + j implies #[trigger] depth(p, m) > depth(p, o + i) by {
        lemma_depth_suffix(p, o, b, m - o);
    }
}

/// In a balanced sequence, scanning on from a `[` meets its partner.
proof fn lemma_close_exists(s: Seq<char>, i: int, k: int)
    requires
        balanced(s),
        0 <= i < k <= s.len(),
        forall|m: int| i < m <= k ==> #[trigger] depth(s, m) > depth(s, i),
    ensures
        exists|j: int| is_pair(s, i, j),
    decreases s.len() - k,
{
    assert(depth(s, s.len() as int) == 0 && depth(s, i) >= 0);
    assert(depth(s, k + 1) == depth(s, k) + delta(s[k]));
    if depth(s, k + 1) == depth(s, i) {
        assert(is_pair(s, i, k));
    } else {
        lemma_close_exists(s, i, k + 1);
    }
}

/// In a balanced sequence, scanning back from a `]` meets its partner.
proof fn lemma_open_exists(s: Seq<char>, j: int, k: int)
    requires
        balanced(s),
        0 <= k <= j < s.len(),
        s[j] == ']',
        depth(s, k) >= depth(s, j + 1),
        forall|m: int| k < m <= j ==> #[trigger] depth(s, m) > depth(s, j + 1),
    ensures
        exists|i: int| is_pair(s, i, j),
    decreases k,
{
    assert(depth(s, j + 1) == depth(s, j) + delta(s[j]));
    if depth(s, k) == depth(s, j + 1) {
        assert(is_pair(s, k, j));
    } else {
        assert(depth(s, 0) == 0 && depth(s, j + 1) >= 0);
        assert(depth(s, k) == depth(s, k - 1) + delta(s[k - 1]));
        lemma_open_exists(s, j, k - 1);
    }
}

/// Running a balanced `b` where it ends a longer program is running `b` alone,
/// with the instruction pointer offset by where `b` starts.
proof fn lemma_run_suffix(p: Seq<char>, o: int, b: Seq<char>, m: Machine, input: Seq<u8>, steps: nat)
    requires
        balanced(b),
        0 <= o,
        o + b.len() == p.len(),
        p.subrange(o, p.len() as int) == b,
        machine_ok(m),
        m.ip <= b.len(),
    ensures
        ({
            let t = exec(b, m, input, steps);
            exec(p, shift(m, o), input, steps) == Trace { machine: shift(t.machine, o), ..t }
        }),
    decreases steps,
{
    let mp = shift(m, o);
    if m.ip < b.len() && steps > 0 {
        let c = b[m.ip];
        assert(p[o + m.ip] == p.subrange(o, p.len() as int)[m.ip]);
        let reads = c == ',';
        if !(reads && input.len() == 0) {
            let byte: u8 = if reads { input[0] } else { 0 };
            let rest = if reads { input.drop_first() } else { input };
            if c == '[' && current(m) == 0 {
                assert(depth(b, m.ip + 1) == depth(b, m.ip) + delta(b[m.ip]));
                lemma_close_exists(b, m.ip, m.ip + 1);
                let j = close_of(b, m.ip);
                lemma_pair_suffix(p, o, b, m.ip, j);
                lemma_pair_named(p, o + m.ip, o + j);
            } else if c == ']' && current(m) != 0 {
                assert(depth(b, m.ip + 1) == depth(b, m.ip) + delta(b[m.ip]));
                lemma_open_exists(b, m.ip, m.ip);
                let i = open_of(b, m.ip);
                lemma_pair_suffix(p, o, b, i, m.ip);
                lemma_pair_named(p, o + i, o + m.ip);
            }
            assert(next(p, mp, byte) == shift(next(b, m, byte), o));
            lemma_run_suffix(p, o, b, next(b, m, byte), rest, (steps - 1) as nat);
        }
    }
}

/// Deleting a loop whose cell is zero when it is reached changes nothing that
/// can be observed: from that point, `a [body] b` and `a b` end with the same
/// tape, data pointer, output, leftover input and outcome, the first taking
/// one step more (the skip). Holds where `b` is balanced, so that no later
/// jump leads back into `a`.
pub proof fn lemma_zero_loop_deleted(
    a: Seq<char>,
    body: Seq<char>,
    b: Seq<char>,
    m: Machine,
    input: Seq<u8>,
    steps: nat,
)
    requires
        balanced(body),
        balanced(b),
        machine_ok(m),
        m.ip == a.len(),
        current(m) == 0,
    ensures
        ({
            let p = a + seq!['['] + body + seq![']'] + b;
            let q = a + b;
            let with_loop = exec(p, m, input, steps + 1);
            let without = exec(q, m, input, steps);
            &&& with_loop.machine.tape == without.machine.tape
            &&& with_loop.machine.dp == without.machine.dp
            &&& with_loop.machine.ip == without.machine.ip + body.len() + 2
            &&& with_loop.output == without.output
            &&& with_loop.input == without.input
            &&& with_loop.halt == without.halt
        }),
{
    let p = a + seq!['['] + body + seq![']'] + b;
    let q = a + b;
    let op = a.len() + body.len() + 2int;
    let m0 = Machine { ip: 0, ..m };
    lemma_skip_zero_loop(a, body, b, m, input, steps);
    assert(p.subrange(op, p.len() as int) =~= b);
    assert(q.subrange(a.len() as int, q.len() as int) =~= b);
    lemma_run_suffix(p, op, b, m0, input, steps);
    lemma_run_suffix(q, a.len() as int, b, m0, input, steps);
    assert(shift(m0, op) == next(p, m, 0));
    assert(shift(m0, a.len() as int) == m);
}

} // verus!
