//! Translation of an instruction sequence into an equivalent C program.
use crate::program::{balanced, depth, is_instr};
use vstd::prelude::*;
use vstd::string::StringExecFns;

verus! {

/// Text that opens the generated program: declarations, the tape and the pointer.
pub open spec fn prologue() -> Seq<char> {
    "int putchar(int);\nint getchar(void);\n\nint main() {\n\tunsigned char memory[30000] = {0};\n\tunsigned char *ptr = memory;\n\n"@
}

/// Text that closes the generated program.
pub open spec fn epilogue() -> Seq<char> {
    "\treturn 0;\n}"@
}

/// `n` tab characters.
pub open spec fn tabs(n: nat) -> Seq<char> {
    Seq::new(n, |i: int| '\t')
}

/// The C statement for one instruction, without its indentation.
pub open spec fn stmt(c: char) -> Seq<char> {
    if c == '>' {
        "++ptr;\n"@
    } else if c == '<' {
        "--ptr;\n"@
    } else if c == '+' {
        "++*ptr;\n"@
    } else if c == '-' {
        "--*ptr;\n"@
    } else if c == '.' {
        "putchar(*ptr);\n"@
    } else if c == ',' {
        "*ptr = getchar();\n"@
    } else if c == '[' {
        "while (*ptr) {\n"@
    } else if c == ']' {
        "}\n"@
    } else {
        Seq::empty()
    }
}

/// Indentation of the line for instruction `i`: one level for the body of
/// `main` and one per enclosing loop; a `]` stands at the level of its `[`.
pub open spec fn indent(prog: Seq<char>, i: int) -> nat {
    if prog[i] == ']' {
        (1 + depth(prog, i + 1)) as nat
    } else {
        (1 + depth(prog, i)) as nat
    }
}

/// The line emitted for instruction `i`.
pub open spec fn line(prog: Seq<char>, i: int) -> Seq<char> {
    if is_instr(prog[i]) {
        tabs(indent(prog, i)) + stmt(prog[i])
    } else {
        Seq::empty()
    }
}

/// The lines for the first `n` instructions.
pub open spec fn body(prog: Seq<char>, n: int) -> Seq<char>
    decreases n,
{
    if n <= 0 {
        Seq::empty()
    } else {
        body(prog, n - 1) + line(prog, n - 1)
    }
}

/// The whole C program for `prog`.
pub open spec fn translation(prog: Seq<char>) -> Seq<char> {
    prologue() + body(prog, prog.len() as int) + epilogue()
}

fn stmt_text(c: char) -> (r: &'static str)
    ensures
        r@ == stmt(c),
{
    if c == '>' {
        "++ptr;\n"
    } else if c == '<' {
        "--ptr;\n"
    } else if c == '+' {
        "++*ptr;\n"
    } else if c == '-' {
        "--*ptr;\n"
    } else if c == '.' {
        "putchar(*ptr);\n"
    } else if c == ',' {
        "*ptr = getchar();\n"
    } else if c == '[' {
        "while (*ptr) {\n"
    } else if c == ']' {
        "}\n"
    } else {
        proof {
            reveal_strlit("");
        }
        ""
    }
}

fn push_tabs(code: &mut String, n: usize)
    ensures
        final(code)@ == old(code)@ + tabs(n as nat),
{
    let mut k: usize = 0;
    while k < n
        invariant
            k <= n,
            code@ == old(code)@ + tabs(k as nat),
        decreases n - k,
    {
        code.append("\t");
        proof {
            reveal_strlit("\t");
            assert(tabs(k as nat) + "\t"@ =~= tabs((k + 1) as nat));
        }
        k = k + 1;
    }
}

/// The C program for a balanced `prog`, or `None` when a bracket has no partner.
pub fn translate(prog: &Vec<char>) -> (r: Option<String>)
    ensures
        balanced(prog@) ==> r is Some && r->Some_0@ == translation(prog@),
        !balanced(prog@) ==> r is None,
{
    let mut code = String::new();
    code.append(
        "int putchar(int);\nint getchar(void);\n\nint main() {\n\tunsigned char memory[30000] = {0};\n\tunsigned char *ptr = memory;\n\n",
    );
    let ghost s = prog@;
    let mut level: usize = 0;
    let mut k: usize = 0;
    assert(code@ =~= prologue() + body(s, 0));
    while k < prog.len()
        invariant
            k <= prog.len(),
            s == prog@,
            level == depth(s, k as int),
            level <= k,
            forall|n: int| 0 <= n <= k ==> #[trigger] depth(s, n) >= 0,
            code@ == prologue() + body(s, k as int),
        decreases prog.len() - k,
    {
        let c = prog[k];
        assert(depth(s, k + 1) == depth(s, k as int) + (if c == '[' { 1int } else if c == ']' { -1int } else { 0int }));
        let ghost before = code@;
        if c == ']' {
            if level == 0 {
                assert(depth(s, k + 1) < 0);
                return None;
            }
            level = level - 1;
        }
        if c == '>' || c == '<' || c == '+' || c == '-' || c == '.' || c == ',' || c == '[' || c
            == ']' {
            push_tabs(&mut code, level);
            code.append("\t");
            code.append(stmt_text(c));
            proof {
                reveal_strlit("\t");
                assert(tabs(level as nat) + "\t"@ =~= tabs(indent(s, k as int)));
                assert(code@ =~= before + line(s, k as int));
            }
        } else {
            assert(code@ =~= before + line(s, k as int));
        }
        if c == '[' {
            level = level + 1;
        }
        k = k + 1;
    }
    if level != 0 {
        return None;
    }
    code.append("\treturn 0;\n}");
    Some(code)
}

} // verus!
