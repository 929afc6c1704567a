use vstd::prelude::*;

use crate::brackets::is_jump_table;

verus! {

/// The abstract state of a running program: the tape, the instruction
/// pointer, the input not yet read and the output written so far.
pub struct Machine {
    pub cells: Seq<u8>,
    pub cursor: int,
    pub ip: int,
    pub input: Seq<u8>,
    pub output: Seq<u8>,
}

/// The eight characters that do something; every other one is a comment.
pub open spec fn is_command(c: char) -> bool {
    c == '>' || c == '<' || c == '+' || c == '-' || c == '.' || c == ',' || c == '[' || c
        == ']'
}

/// The tape is non-empty, the cursor lies on it and the pointer is not negative.
pub open spec fn machine_wf(m: Machine) -> bool {
    &&& m.cells.len() > 0
    &&& 0 <= m.cursor < m.cells.len()
    &&& 0 <= m.ip
}

/// The program has run off its end.
pub open spec fn halted(code: Seq<char>, m: Machine) -> bool {
    m.ip >= code.len()
}

/// The program waits at a `,` with no input left.
pub open spec fn starved(code: Seq<char>, m: Machine) -> bool {
    &&& 0 <= m.ip < code.len()
    &&& code[m.ip] == ','
    &&& m.input.len() == 0
}

/// The machine after executing the instruction at `m.ip`; a halted or
/// starved machine stays as it is.
pub open spec fn next(code: Seq<char>, jumps: Seq<usize>, m: Machine) -> Machine {
    if m.ip < 0 || halted(code, m) || starved(code, m) {
        m
    } else {
        let c = code[m.ip];
        let n = m.cells.len() as int;
        let v = m.cells[m.cursor];
        if c == '>' {
            Machine { cursor: (m.cursor + 1) % n, ip: m.ip + 1, ..m }
        } else if c == '<' {
            Machine { cursor: (m.cursor + n - 1) % n, ip: m.ip + 1, ..m }
        } else if c == '+' {
            Machine {
                cells: m.cells.update(m.cursor, ((v + 1) % 256) as u8),
                ip: m.ip + 1,
                ..m
            }
        } else if c == '-' {
            Machine {
                cells: m.cells.update(m.cursor, ((v + 255) % 256) as u8),
                ip: m.ip + 1,
                ..m
            }
        } else if c == '.' {
            Machine { output: m.output.push(v), ip: m.ip + 1, ..m }
        } else if c == ',' {
            Machine {
                cells: m.cells.update(m.cursor, m.input[0]),
                input: m.input.drop_first(),
                ip: m.ip + 1,
                ..m
            }
        } else if c == '[' {
            if v == 0 {
                Machine { ip: jumps[m.ip] + 1, ..m }
            } else {
                Machine { ip: m.ip + 1, ..m }
            }
        } else if c == ']' {
            Machine { ip: jumps[m.ip] as int, ..m }
        } else {
            Machine { ip: m.ip + 1, ..m }
        }
    }
}

/// The machine after at most `fuel` instructions, stopping early where it
/// halts or starves.
pub open spec fn run_steps(code: Seq<char>, jumps: Seq<usize>, m: Machine, fuel: nat) -> Machine
    decreases fuel,
{
    if fuel == 0 || halted(code, m) || starved(code, m) {
        m
    } else {
        run_steps(code, jumps, next(code, jumps, m), (fuel - 1) as nat)
    }
}

/// With a jump table, one instruction keeps the machine well formed and the
/// pointer within the program or just past its end.
pub proof fn lemma_next_wf(code: Seq<char>, jumps: Seq<usize>, m: Machine)
    requires
        is_jump_table(code, jumps),
        machine_wf(m),
        m.ip <= code.len(),
    ensures
        machine_wf(next(code, jumps, m)),
        next(code, jumps, m).ip <= code.len(),
        next(code, jumps, m).cells.len() == m.cells.len(),
{
    if !(halted(code, m) || starved(code, m)) {
        let c = code[m.ip];
        if c == '[' {
            assert(jumps[m.ip] < code.len());
        } else if c == ']' {
            assert(jumps[m.ip] < m.ip);
        }
    }
}

/// Running `a` instructions and then `b` more is running `a + b`.
pub proof fn lemma_run_steps_add(code: Seq<char>, jumps: Seq<usize>, m: Machine, a: nat, b: nat)
    ensures
        run_steps(code, jumps, m, a + b) == run_steps(
            code,
            jumps,
            run_steps(code, jumps, m, a),
            b,
        ),
    decreases a,
{
    if a == 0 {
    } else if halted(code, m) || starved(code, m) {
        assert(run_steps(code, jumps, m, b) == m) by {
            if b > 0 {
            }
        }
    } else {
        lemma_run_steps_add(code, jumps, next(code, jumps, m), (a - 1) as nat, b);
        assert((a + b - 1) as nat == ((a - 1) as nat + b) as nat);
    }
}

/// A character that is not one of the eight commands leaves the tape, the
/// cursor, the input and the output alone, and moves the pointer on by one.
pub proof fn lemma_comment_is_noop(code: Seq<char>, jumps: Seq<usize>, m: Machine)
    requires
        0 <= m.ip < code.len(),
        !is_command(code[m.ip]),
    ensures
        next(code, jumps, m) == (Machine { ip: m.ip + 1, ..m }),
{
}

/// The program `[-]`, which counts the cell under the cursor down to zero.
pub open spec fn clear_loop() -> Seq<char> {
    seq!['[', '-', ']']
}

proof fn lemma_clear_loop_jumps(jumps: Seq<usize>)
    requires
        is_jump_table(clear_loop(), jumps),
    ensures
        jumps[0] == 2,
        jumps[2] == 0,
{
    let code = clear_loop();
    assert(code[0] == '[' && code[1] == '-' && code[2] == ']');
    assert(jumps[0] < 3 && code[jumps[0] as int] == ']');
}

/// One pass of `[-]` over a cell that is not zero takes three instructions,
/// lowers the cell by one and returns to the loop head.
proof fn lemma_clear_loop_pass(jumps: Seq<usize>, m: Machine)
    requires
        is_jump_table(clear_loop(), jumps),
        machine_wf(m),
        m.ip == 0,
        m.cells[m.cursor] != 0,
    ensures
        run_steps(clear_loop(), jumps, m, 3) == (Machine {
            cells: m.cells.update(m.cursor, (m.cells[m.cursor] - 1) as u8),
            ..m
        }),
        run_steps(clear_loop(), jumps, m, 1).ip == 1,
        run_steps(clear_loop(), jumps, m, 2).ip == 2,
{
    reveal_with_fuel(run_steps, 4);
    let code = clear_loop();
    lemma_clear_loop_jumps(jumps);
    assert(code[0] == '[' && code[1] == '-' && code[2] == ']');
    let v = m.cells[m.cursor];
    let m1 = next(code, jumps, m);
    assert(m1 == Machine { ip: 1, ..m });
    let m2 = next(code, jumps, m1);
    assert(((v + 255) % 256) as u8 == (v - 1) as u8);
    assert(m2 == Machine { cells: m.cells.update(m.cursor, (v - 1) as u8), ip: 2, ..m });
}

proof fn lemma_clear_loop_passes(jumps: Seq<usize>, m: Machine, k: nat)
    requires
        is_jump_table(clear_loop(), jumps),
        machine_wf(m),
        m.ip == 0,
        k <= m.cells[m.cursor],
    ensures
        run_steps(clear_loop(), jumps, m, 3 * k) == (Machine {
            cells: m.cells.update(m.cursor, (m.cells[m.cursor] - k) as u8),
            ..m
        }),
    decreases k,
{
    let code = clear_loop();
    let v = m.cells[m.cursor];
    if k == 0 {
        assert(m.cells.update(m.cursor, v) =~= m.cells);
    } else {
        lemma_clear_loop_passes(jumps, m, (k - 1) as nat);
        let mk = run_steps(code, jumps, m, 3 * (k - 1) as nat);
        lemma_run_steps_add(code, jumps, m, 3 * (k - 1) as nat, 3);
        assert(3 * (k - 1) as nat + 3 == 3 * k);
        lemma_clear_loop_pass(jumps, mk);
        assert(mk.cells.update(m.cursor, (v - (k - 1) - 1) as u8) =~= m.cells.update(
            m.cursor,
            (v - k) as u8,
        ));
    }
}

/// Run on a cell holding `v`, `[-]` makes exactly `v` passes through its
/// body: after `3 * k` instructions, for each `k <= v`, it is back at the loop
/// head with the cell at `v - k`; it does not halt before instruction
/// `3 * v + 1`, and there it halts with the cell at zero and nothing else of
/// the machine changed.
pub proof fn lemma_clear_loop(jumps: Seq<usize>, m: Machine)
    requires
        is_jump_table(clear_loop(), jumps),
        machine_wf(m),
        m.ip == 0,
    ensures
        forall|k: nat|
            k <= m.cells[m.cursor] ==> #[trigger] run_steps(clear_loop(), jumps, m, 3 * k) == (
            Machine { cells: m.cells.update(m.cursor, (m.cells[m.cursor] - k) as u8), ..m }),
        forall|f: nat|
            f < 3 * m.cells[m.cursor] + 1 ==> !halted(
                clear_loop(),
                #[trigger] run_steps(clear_loop(), jumps, m, f),
            ),
        run_steps(clear_loop(), jumps, m, (3 * m.cells[m.cursor] + 1) as nat) == (Machine {
            cells: m.cells.update(m.cursor, 0),
            ip: 3,
            ..m
        }),
{
    let code = clear_loop();
    let v = m.cells[m.cursor] as nat;
    assert forall|k: nat| k <= v implies #[trigger] run_steps(code, jumps, m, 3 * k) == (Machine {
        cells: m.cells.update(m.cursor, (v - k) as u8),
        ..m
    }) by {
        lemma_clear_loop_passes(jumps, m, k);
    }
    assert forall|f: nat| f < 3 * v + 1 implies !halted(
        code,
        #[trigger] run_steps(code, jumps, m, f),
    ) by {
        let k = f / 3;
        let r = (f % 3) as nat;
        assert(f == 3 * k + r);
        lemma_clear_loop_passes(jumps, m, k);
        lemma_run_steps_add(code, jumps, m, 3 * k, r);
        let mk = run_steps(code, jumps, m, 3 * k);
        if r > 0 {
            lemma_clear_loop_pass(jumps, mk);
        }
    }
    lemma_clear_loop_passes(jumps, m, v);
    lemma_run_steps_add(code, jumps, m, 3 * v, 1);
    lemma_clear_loop_jumps(jumps);
    let mv = run_steps(code, jumps, m, 3 * v);
    assert(code[0] == '[');
    assert(run_steps(code, jumps, mv, 1) == next(code, jumps, mv)) by {
        reveal_with_fuel(run_steps, 2);
    }
    assert(mv.cells.update(m.cursor, 0) =~= mv.cells);
}

/// Where the instruction is not `,`, the input is only carried along and the
/// output only grows by what the instruction writes.
pub proof fn lemma_next_frame(
    code: Seq<char>,
    jumps: Seq<usize>,
    m: Machine,
    input: Seq<u8>,
    output: Seq<u8>,
)
    requires
        m.input.len() == 0,
        m.output.len() == 0,
        !(0 <= m.ip < code.len() && code[m.ip] == ','),
    ensures
        next(code, jumps, Machine { input, output, ..m }) == (Machine {
            input,
            output: output + next(code, jumps, m).output,
            ..next(code, jumps, m)
        }),
{
    let n = next(code, jumps, m);
    let big = next(code, jumps, Machine { input, output, ..m });
    if m.ip < 0 || halted(code, m) {
        assert(output + n.output =~= output);
    } else if code[m.ip] == '.' {
        assert(output + n.output =~= output.push(m.cells[m.cursor]));
    } else {
        assert(output + n.output =~= output);
    }
}

} // verus!
