//! The parser.
//!
//! The surface grammar, lowest precedence first, with whitespace allowed
//! around every token:
//!
//! ```text
//! program        := statement (";" statement)* ";"?    (whole input consumed)
//! statement      := var_decl | assignment | output_call
//! var_decl       := "let" IDENT ("=" expr)?
//! assignment     := IDENT "=" expr
//! output_call    := "output" "(" expr ")"
//! expr           := mul_term (("+"|"-") mul_term)*      left-associative
//! mul_term       := unary_term (("*"|"/") unary_term)*  left-associative
//! unary_term     := "-" unary_term | primary_term
//! primary_term   := "(" expr ")" | func_call | var_ref | int_literal
//! func_call      := "uniform" "(" arg_list ")"          two integer literals
//! var_ref        := IDENT (":" IDENT "(" arg_list? ")")?
//! arg_list       := expr ("," expr)*
//! ```
//!
//! Identifiers are one ASCII alphabetic character followed by
//! alphanumerics; `let` is a reserved word and never an identifier, and the
//! keyword only matches on a word boundary. Integer literals are decimal
//! digit runs read as signed 64-bit values; a run past `i64::MAX` fails to
//! parse. The only builtin constructor is `uniform(a, b)`, which demands
//! exactly two integer-literal arguments; any other call name or argument
//! shape is a parse failure. The whole grammar is deterministic, and the
//! functions below define it as a mathematical specification
//! ([`spec_parse`]) that the executable parser is proved equal to: parsing
//! succeeds exactly when the input derives from `program`, and then returns
//! the corresponding syntax tree.

use vstd::prelude::*;

verus! {

use crate::ast::{exprs_view, stmts_view, Error, Expr, ExprV, DistV, Statement, StatementV};

/// The whitespace characters: space, tab, newline, carriage return.
pub open spec fn is_space(c: char) -> bool {
    c == ' ' || c == '\t' || c == '\n' || c == '\r'
}

/// ASCII alphabetic.
pub open spec fn is_alpha(c: char) -> bool {
    (97 <= c as u32 && c as u32 <= 122) || (65 <= c as u32 && c as u32 <= 90)
}

/// ASCII decimal digit.
pub open spec fn is_digit(c: char) -> bool {
    48 <= c as u32 && c as u32 <= 57
}

/// ASCII alphanumeric.
pub open spec fn is_alnum(c: char) -> bool {
    is_alpha(c) || is_digit(c)
}

/// The numeric value of a decimal digit character.
pub open spec fn digit_val(c: char) -> int {
    c as u32 - 48
}

/// The first index at or after `i` holding no whitespace.
pub open spec fn spec_ws(s: Seq<char>, i: int) -> int
    decreases s.len() - i,
{
    if 0 <= i < s.len() && is_space(s[i]) {
        spec_ws(s, i + 1)
    } else {
        i
    }
}

/// Skipping whitespace stays within the input.
pub proof fn lemma_ws(s: Seq<char>, i: int)
    requires
        0 <= i <= s.len(),
    ensures
        i <= spec_ws(s, i) <= s.len(),
    decreases s.len() - i,
{
    if i < s.len() && is_space(s[i]) {
        lemma_ws(s, i + 1);
    }
}

/// The end of the alphanumeric run starting at `i`.
pub open spec fn spec_scan_alnum(s: Seq<char>, i: int) -> int
    decreases s.len() - i,
{
    if 0 <= i < s.len() && is_alnum(s[i]) {
        spec_scan_alnum(s, i + 1)
    } else {
        i
    }
}

/// Scanning alphanumerics stays within the input.
pub proof fn lemma_scan_alnum(s: Seq<char>, i: int)
    requires
        0 <= i <= s.len(),
    ensures
        i <= spec_scan_alnum(s, i) <= s.len(),
    decreases s.len() - i,
{
    if i < s.len() && is_alnum(s[i]) {
        lemma_scan_alnum(s, i + 1);
    }
}

/// An identifier at `i`: an alphabetic character followed by
/// alphanumerics. The reserved word `let` is not an identifier.
pub open spec fn spec_ident(s: Seq<char>, i: int) -> Option<(Seq<char>, int)> {
    if 0 <= i < s.len() && is_alpha(s[i]) {
        let end = spec_scan_alnum(s, i + 1);
        let name = s.subrange(i, end);
        if name == seq!['l', 'e', 't'] {
            None
        } else {
            Some((name, end))
        }
    } else {
        None
    }
}

/// Scans a decimal digit run from `i`, folding its value onto `acc`;
/// `None` once the value passes `i64::MAX`.
pub open spec fn spec_int_scan(s: Seq<char>, i: int, acc: int) -> Option<(int, int)>
    decreases s.len() - i,
{
    if 0 <= i < s.len() && is_digit(s[i]) {
        let acc2 = acc * 10 + digit_val(s[i]);
        if acc2 > i64::MAX as int {
            None
        } else {
            spec_int_scan(s, i + 1, acc2)
        }
    } else {
        Some((acc, i))
    }
}

/// A successful digit scan stays within the input and within `i64` range.
pub proof fn lemma_int_scan(s: Seq<char>, i: int, acc: int)
    requires
        0 <= i <= s.len(),
        0 <= acc <= i64::MAX as int,
    ensures
        match spec_int_scan(s, i, acc) {
            Some(ve) => 0 <= ve.0 <= i64::MAX as int && i <= ve.1 <= s.len(),
            None => true,
        },
    decreases s.len() - i,
{
    if i < s.len() && is_digit(s[i]) {
        let acc2 = acc * 10 + digit_val(s[i]);
        if acc2 <= i64::MAX as int {
            lemma_int_scan(s, i + 1, acc2);
        }
    }
}

/// An integer literal at `i`: one or more decimal digits, read as a
/// signed 64-bit value.
pub open spec fn spec_int_lit(s: Seq<char>, i: int) -> Option<(i64, int)> {
    if 0 <= i < s.len() && is_digit(s[i]) {
        match spec_int_scan(s, i, 0) {
            Some(ve) => Some((ve.0 as i64, ve.1)),
            None => None,
        }
    } else {
        None
    }
}

/// The name of the one builtin distribution constructor.
pub open spec fn uniform_chars() -> Seq<char> {
    seq!['u', 'n', 'i', 'f', 'o', 'r', 'm']
}

/// The name of the output statement.
pub open spec fn output_chars() -> Seq<char> {
    seq!['o', 'u', 't', 'p', 'u', 't']
}

/// A primary term at `i`: a parenthesized expression, a builtin
/// distribution constructor, a variable reference with an optional
/// trailing method call, or an integer literal.
pub open spec fn spec_primary(s: Seq<char>, i: int) -> Option<(ExprV, int)>
    decreases s.len() - i, 0int,
{
    let j = spec_ws(s, i);
    if i <= j && j < s.len() && s[j] == '(' {
        match spec_expr(s, j + 1) {
            None => None,
            Some(ep) => {
                let q = spec_ws(s, ep.1);
                if q < s.len() && s[q] == ')' {
                    Some((ep.0, q + 1))
                } else {
                    None
                }
            },
        }
    } else if i <= j && j < s.len() && is_digit(s[j]) {
        match spec_int_lit(s, j) {
            None => None,
            Some(vp) => Some((ExprV::Int(vp.0), vp.1)),
        }
    } else if i <= j {
        match spec_ident(s, j) {
            None => None,
            Some(np) => {
                let name = np.0;
                let p = np.1;
                let q = spec_ws(s, p);
                if j <= q && q < s.len() && s[q] == '(' {
                    spec_func_call(s, name, q + 1)
                } else if j <= q && q < s.len() && s[q] == ':' {
                    spec_method_call(s, name, q + 1)
                } else {
                    Some((ExprV::Var(name), p))
                }
            },
        }
    } else {
        None
    }
}

/// A builtin constructor call, after its opening parenthesis: the name
/// must be `uniform` and the arguments exactly two integer literals.
pub open spec fn spec_func_call(s: Seq<char>, name: Seq<char>, i: int) -> Option<(ExprV, int)>
    decreases s.len() - i, 8int,
{
    if name != uniform_chars() {
        None
    } else {
        match spec_arg_list(s, i) {
            None => None,
            Some(ap) => {
                let args = ap.0;
                let q = spec_ws(s, ap.1);
                if q < s.len() && s[q] == ')' {
                    if args.len() == 2 && args[0] is Int && args[1] is Int {
                        Some(
                            (
                                ExprV::Dist(
                                    Box::new(
                                        DistV::Uniform(Box::new(args[0]), Box::new(args[1])),
                                    ),
                                ),
                                q + 1,
                            ),
                        )
                    } else {
                        None
                    }
                } else {
                    None
                }
            },
        }
    }
}

/// A trailing method call on a variable, after its colon:
/// `IDENT "(" arg_list? ")"`.
pub open spec fn spec_method_call(s: Seq<char>, name: Seq<char>, i: int) -> Option<(ExprV, int)>
    decreases s.len() - i, 8int,
{
    if !(0 <= i <= s.len()) {
        None
    } else {
        let j = spec_ws(s, i);
        match spec_ident(s, j) {
            None => None,
            Some(mp) => {
                let m = mp.0;
                let q = spec_ws(s, mp.1);
                if i <= q && q < s.len() && s[q] == '(' {
                    let q2 = spec_ws(s, q + 1);
                    if q2 < s.len() && s[q2] == ')' {
                        Some(
                            (
                                ExprV::DistMethodCall {
                                    var: name,
                                    method: m,
                                    args: Seq::empty(),
                                },
                                q2 + 1,
                            ),
                        )
                    } else {
                        match spec_arg_list(s, q + 1) {
                            None => None,
                            Some(ap) => {
                                let q3 = spec_ws(s, ap.1);
                                if q3 < s.len() && s[q3] == ')' {
                                    Some(
                                        (
                                            ExprV::DistMethodCall {
                                                var: name,
                                                method: m,
                                                args: ap.0,
                                            },
                                            q3 + 1,
                                        ),
                                    )
                                } else {
                                    None
                                }
                            },
                        }
                    }
                } else {
                    None
                }
            },
        }
    }
}

/// A comma-separated argument list: `expr ("," expr)*`.
pub open spec fn spec_arg_list(s: Seq<char>, i: int) -> Option<(Seq<ExprV>, int)>
    decreases s.len() - i, 7int,
{
    match spec_expr(s, i) {
        None => None,
        Some(ep) => if i < ep.1 <= s.len() {
            spec_arg_more(s, ep.1, seq![ep.0])
        } else {
            None
        },
    }
}

/// The tail of an argument list from `i`, extending `acc`.
pub open spec fn spec_arg_more(s: Seq<char>, i: int, acc: Seq<ExprV>) -> Option<
    (Seq<ExprV>, int),
>
    decreases s.len() - i, 6int,
{
    let j = spec_ws(s, i);
    if i <= j && j < s.len() && s[j] == ',' {
        match spec_expr(s, j + 1) {
            None => None,
            Some(ep) => if j + 1 < ep.1 <= s.len() {
                spec_arg_more(s, ep.1, acc.push(ep.0))
            } else {
                None
            },
        }
    } else {
        Some((acc, i))
    }
}

/// A unary term at `i`: any number of leading minus signs, then a primary
/// term.
pub open spec fn spec_unary(s: Seq<char>, i: int) -> Option<(ExprV, int)>
    decreases s.len() - i, 1int,
{
    let j = spec_ws(s, i);
    if i <= j && j < s.len() && s[j] == '-' {
        match spec_unary(s, j + 1) {
            None => None,
            Some(ep) => Some((ExprV::Neg(Box::new(ep.0)), ep.1)),
        }
    } else {
        spec_primary(s, i)
    }
}

/// A multiplicative term at `i`: unary terms joined by `*` and `/`,
/// left-associative.
pub open spec fn spec_mul(s: Seq<char>, i: int) -> Option<(ExprV, int)>
    decreases s.len() - i, 3int,
{
    match spec_unary(s, i) {
        None => None,
        Some(ep) => if i < ep.1 <= s.len() {
            spec_mul_more(s, ep.1, ep.0)
        } else {
            None
        },
    }
}

/// The tail of a multiplicative term from `i`, folding onto `acc`.
pub open spec fn spec_mul_more(s: Seq<char>, i: int, acc: ExprV) -> Option<(ExprV, int)>
    decreases s.len() - i, 2int,
{
    let j = spec_ws(s, i);
    if i <= j && j + 1 <= s.len() && (s[j] == '*' || s[j] == '/') {
        match spec_unary(s, j + 1) {
            None => None,
            Some(ep) => {
                let acc2 = if s[j] == '*' {
                    ExprV::Mul(Box::new(acc), Box::new(ep.0))
                } else {
                    ExprV::Div(Box::new(acc), Box::new(ep.0))
                };
                if j + 1 < ep.1 <= s.len() {
                    spec_mul_more(s, ep.1, acc2)
                } else {
                    None
                }
            },
        }
    } else {
        Some((acc, i))
    }
}

/// An expression at `i`: multiplicative terms joined by `+` and `-`,
/// left-associative.
pub open spec fn spec_expr(s: Seq<char>, i: int) -> Option<(ExprV, int)>
    decreases s.len() - i, 5int,
{
    match spec_mul(s, i) {
        None => None,
        Some(ep) => if i < ep.1 <= s.len() {
            spec_expr_more(s, ep.1, ep.0)
        } else {
            None
        },
    }
}

/// The tail of an expression from `i`, folding onto `acc`.
pub open spec fn spec_expr_more(s: Seq<char>, i: int, acc: ExprV) -> Option<(ExprV, int)>
    decreases s.len() - i, 4int,
{
    let j = spec_ws(s, i);
    if i <= j && j + 1 <= s.len() && (s[j] == '+' || s[j] == '-') {
        match spec_mul(s, j + 1) {
            None => None,
            Some(ep) => {
                let acc2 = if s[j] == '+' {
                    ExprV::Add(Box::new(acc), Box::new(ep.0))
                } else {
                    ExprV::Sub(Box::new(acc), Box::new(ep.0))
                };
                if j + 1 < ep.1 <= s.len() {
                    spec_expr_more(s, ep.1, acc2)
                } else {
                    None
                }
            },
        }
    } else {
        Some((acc, i))
    }
}

/// A statement at `i`: a variable declaration (committed once the `let`
/// keyword matches on a word boundary), an assignment, or an output call.
pub open spec fn spec_statement(s: Seq<char>, i: int) -> Option<(StatementV, int)>
    decreases s.len() - i, 9int,
{
    let j = spec_ws(s, i);
    if i <= j && j + 3 <= s.len() && s.subrange(j, j + 3) == seq!['l', 'e', 't'] && (j + 3
        == s.len() || !is_alnum(s[j + 3])) {
        match spec_ident(s, spec_ws(s, j + 3)) {
            None => None,
            Some(np) => {
                let q = spec_ws(s, np.1);
                if j <= q && q < s.len() && s[q] == '=' {
                    match spec_expr(s, q + 1) {
                        None => None,
                        Some(ep) => Some(
                            (
                                StatementV::DeclAssign {
                                    name: ExprV::Var(np.0),
                                    value: ep.0,
                                },
                                ep.1,
                            ),
                        ),
                    }
                } else {
                    Some((StatementV::Decl(ExprV::Var(np.0)), np.1))
                }
            },
        }
    } else if i <= j {
        match spec_ident(s, j) {
            None => None,
            Some(np) => {
                let q = spec_ws(s, np.1);
                if j <= q && q < s.len() && s[q] == '=' {
                    match spec_expr(s, q + 1) {
                        None => None,
                        Some(ep) => Some(
                            (
                                StatementV::Assign { name: ExprV::Var(np.0), value: ep.0 },
                                ep.1,
                            ),
                        ),
                    }
                } else if np.0 == output_chars() && j <= q && q < s.len() && s[q] == '(' {
                    match spec_expr(s, q + 1) {
                        None => None,
                        Some(ep) => {
                            let q2 = spec_ws(s, ep.1);
                            if q2 < s.len() && s[q2] == ')' {
                                Some((StatementV::HardcodedOutput(ep.0), q2 + 1))
                            } else {
                                None
                            }
                        },
                    }
                } else {
                    None
                }
            },
        }
    } else {
        None
    }
}

/// The statement list's tail from `i`, extending `acc`: each further
/// statement follows a `;`, and a trailing `;` may end the program.
pub open spec fn spec_program_more(s: Seq<char>, i: int, acc: Seq<StatementV>) -> Option<
    (Seq<StatementV>, int),
>
    decreases s.len() - i, 10int,
{
    let j = spec_ws(s, i);
    if i <= j && j < s.len() && s[j] == ';' {
        let j2 = spec_ws(s, j + 1);
        if j2 >= s.len() {
            Some((acc, j2))
        } else {
            match spec_statement(s, j + 1) {
                None => None,
                Some(sp) => if j + 1 < sp.1 <= s.len() {
                    spec_program_more(s, sp.1, acc.push(sp.0))
                } else {
                    None
                },
            }
        }
    } else {
        Some((acc, i))
    }
}

/// Whitespace, executably.
fn is_space_char(c: char) -> (r: bool)
    ensures
        r == is_space(c),
{
    c == ' ' || c == '\t' || c == '\n' || c == '\r'
}

/// ASCII alphabetic, executably.
fn is_alpha_char(c: char) -> (r: bool)
    ensures
        r == is_alpha(c),
{
    let u = c as u32;
    (97 <= u && u <= 122) || (65 <= u && u <= 90)
}

/// ASCII digit, executably.
fn is_digit_char(c: char) -> (r: bool)
    ensures
        r == is_digit(c),
{
    let u = c as u32;
    48 <= u && u <= 57
}

/// ASCII alphanumeric, executably.
fn is_alnum_char(c: char) -> (r: bool)
    ensures
        r == is_alnum(c),
{
    is_alpha_char(c) || is_digit_char(c)
}

/// Skips whitespace from `i`.
fn skip_ws(s: &str, i: usize) -> (r: usize)
    requires
        i <= s@.len(),
    ensures
        i <= r <= s@.len(),
        r as int == spec_ws(s@, i as int),
{
    let n = s.unicode_len();
    let mut j = i;
    while j < n && is_space_char(s.get_char(j))
        invariant
            i <= j <= n,
            n == s@.len(),
            spec_ws(s@, i as int) == spec_ws(s@, j as int),
        decreases n - j,
    {
        j = j + 1;
    }
    j
}

/// Parses an identifier at `i`; a failure carries the position at which
/// it was noticed.
fn p_ident(s: &str, i: usize) -> (r: Result<(String, usize), usize>)
    requires
        i <= s@.len(),
    ensures
        match r {
            Ok(np) => spec_ident(s@, i as int) == Some((np.0@, np.1 as int)) && i < np.1
                <= s@.len(),
            Err(pos) => spec_ident(s@, i as int) is None && pos <= s@.len(),
        },
{
    let n = s.unicode_len();
    if i < n && is_alpha_char(s.get_char(i)) {
        let mut j = i + 1;
        while j < n && is_alnum_char(s.get_char(j))
            invariant
                i + 1 <= j <= n,
                n == s@.len(),
                spec_scan_alnum(s@, i as int + 1) == spec_scan_alnum(s@, j as int),
            decreases n - j,
        {
            j = j + 1;
        }
        let name = s.substring_char(i, j).to_owned();
        let lit = String::from_str("let");
        proof {
            reveal_strlit("let");
            assert(lit@ =~= seq!['l', 'e', 't']);
        }
        if name == lit {
            Err(i)
        } else {
            Ok((name, j))
        }
    } else {
        Err(i)
    }
}

/// Parses an integer literal at `i`; a failure carries the position at
/// which it was noticed.
fn p_int(s: &str, i: usize) -> (r: Result<(i64, usize), usize>)
    requires
        i <= s@.len(),
    ensures
        match r {
            Ok(vp) => spec_int_lit(s@, i as int) == Some((vp.0, vp.1 as int)) && i < vp.1
                <= s@.len(),
            Err(pos) => spec_int_lit(s@, i as int) is None && pos <= s@.len(),
        },
{
    let n = s.unicode_len();
    if i < n && is_digit_char(s.get_char(i)) {
        let mut j = i;
        let mut acc: i64 = 0;
        loop
            invariant_except_break
                i <= j <= n,
                n == s@.len(),
                i < n,
                is_digit(s@[i as int]),
                j == i ==> acc == 0,
                0 <= acc,
                acc <= i64::MAX,
                spec_int_scan(s@, i as int, 0) == spec_int_scan(s@, j as int, acc as int),
            ensures
                i <= j <= n,
                !(j < n && is_digit(s@[j as int])),
                spec_int_scan(s@, i as int, 0) == Some((acc as int, j as int)),
            decreases n - j,
        {
            if !(j < n && is_digit_char(s.get_char(j))) {
                break ;
            }
            let c = s.get_char(j);
            let d: u32 = (c as u32) - 48;
            let acc2: i128 = (acc as i128) * 10 + (d as i128);
            if acc2 > i64::MAX as i128 {
                return Err(j);
            }
            acc = acc2 as i64;
            j = j + 1;
        }
        Ok((acc, j))
    } else {
        Err(i)
    }
}

/// The integer-literal shape of an expression.
fn int_lit_shape(e: &Expr) -> (r: Option<i64>)
    ensures
        match r {
            Some(v) => e@ == ExprV::Int(v),
            None => !(e@ is Int),
        },
{
    match e {
        Expr::Int(v) => Some(*v),
        _ => None,
    }
}

/// Parses a primary term at `i`; a failure carries the deepest position
/// reached.
#[verifier::rlimit(100)]
fn p_primary(s: &str, i: usize) -> (r: Result<(Expr, usize), usize>)
    requires
        i <= s@.len(),
    ensures
        match r {
            Ok(ep) => spec_primary(s@, i as int) == Some((ep.0@, ep.1 as int)) && i < ep.1
                <= s@.len(),
            Err(pos) => spec_primary(s@, i as int) is None && pos <= s@.len(),
        },
    decreases s@.len() - i, 0int,
{
    let n = s.unicode_len();
    let j = skip_ws(s, i);
    if j < n && s.get_char(j) == '(' {
        match p_expr(s, j + 1) {
            Err(pos) => Err(pos),
            Ok((e, p)) => {
                let q = skip_ws(s, p);
                if q < n && s.get_char(q) == ')' {
                    Ok((e, q + 1))
                } else {
                    Err(q)
                }
            },
        }
    } else if j < n && is_digit_char(s.get_char(j)) {
        match p_int(s, j) {
            Err(pos) => Err(pos),
            Ok((v, p)) => Ok((Expr::Int(v), p)),
        }
    } else {
        match p_ident(s, j) {
            Err(pos) => Err(pos),
            Ok((name, p)) => {
                let q = skip_ws(s, p);
                if q < n && s.get_char(q) == '(' {
                    let uni = String::from_str("uniform");
                    proof {
                        reveal_strlit("uniform");
                        assert(uni@ =~= uniform_chars());
                    }
                    if !(name == uni) {
                        Err(j)
                    } else {
                        match p_args(s, q + 1) {
                            Err(pos) => Err(pos),
                            Ok((args, p2)) => {
                                proof {
                                    crate::ast::lemma_exprs_view(args@);
                                }
                                let q2 = skip_ws(s, p2);
                                if q2 < n && s.get_char(q2) == ')' {
                                    if args.len() == 2 {
                                        proof {
                                            reveal_with_fuel(crate::ast::expr_view, 3);
                                            reveal_with_fuel(crate::ast::dist_view, 2);
                                        }
                                        let a0 = int_lit_shape(&args[0]);
                                        let a1 = int_lit_shape(&args[1]);
                                        match (a0, a1) {
                                            (Some(a), Some(b)) => Ok(
                                                (
                                                    Expr::Dist(
                                                        crate::ast::Dist::Uniform(
                                                            Box::new(Expr::Int(a)),
                                                            Box::new(Expr::Int(b)),
                                                        ),
                                                    ),
                                                    q2 + 1,
                                                ),
                                            ),
                                            _ => Err(j),
                                        }
                                    } else {
                                        Err(j)
                                    }
                                } else {
                                    Err(q2)
                                }
                            },
                        }
                    }
                } else if q < n && s.get_char(q) == ':' {
                    let j2 = skip_ws(s, q + 1);
                    match p_ident(s, j2) {
                        Err(pos) => Err(pos),
                        Ok((m, pm)) => {
                            let qq = skip_ws(s, pm);
                            if qq < n && s.get_char(qq) == '(' {
                                let q2 = skip_ws(s, qq + 1);
                                if q2 < n && s.get_char(q2) == ')' {
                                    let args: Vec<Expr> = Vec::new();
                                    proof {
                                        crate::ast::lemma_exprs_view(args@);
                                        assert(exprs_view(args@) =~= Seq::<ExprV>::empty());
                                    }
                                    Ok(
                                        (
                                            Expr::DistMethodCall {
                                                var: name,
                                                method: m,
                                                args,
                                            },
                                            q2 + 1,
                                        ),
                                    )
                                } else {
                                    match p_args(s, qq + 1) {
                                        Err(pos) => Err(pos),
                                        Ok((args, p2)) => {
                                            let q3 = skip_ws(s, p2);
                                            if q3 < n && s.get_char(q3) == ')' {
                                                Ok(
                                                    (
                                                        Expr::DistMethodCall {
                                                            var: name,
                                                            method: m,
                                                            args,
                                                        },
                                                        q3 + 1,
                                                    ),
                                                )
                                            } else {
                                                Err(q3)
                                            }
                                        },
                                    }
                                }
                            } else {
                                Err(qq)
                            }
                        },
                    }
                } else {
                    Ok((Expr::Var(name), p))
                }
            },
        }
    }
}

/// Parses a comma-separated argument list at `i`; a failure carries the
/// deepest position reached.
#[verifier::rlimit(100)]
fn p_args(s: &str, i: usize) -> (r: Result<(Vec<Expr>, usize), usize>)
    requires
        i <= s@.len(),
    ensures
        match r {
            Ok(ap) => spec_arg_list(s@, i as int) == Some((exprs_view(ap.0@), ap.1 as int))
                && i < ap.1 <= s@.len(),
            Err(pos) => spec_arg_list(s@, i as int) is None && pos <= s@.len(),
        },
    decreases s@.len() - i, 7int,
{
    let n = s.unicode_len();
    match p_expr(s, i) {
        Err(pos) => Err(pos),
        Ok((e, p0)) => {
            let mut args: Vec<Expr> = Vec::new();
            let ghost ev = e@;
            args.push(e);
            proof {
                crate::ast::lemma_exprs_view(args@);
                assert(exprs_view(args@) =~= seq![ev]);
            }
            let mut p = p0;
            loop
                invariant_except_break
                    i < p <= n,
                    n == s@.len(),
                    spec_arg_list(s@, i as int) == spec_arg_more(s@, p as int, exprs_view(args@)),
                ensures
                    i < p <= n,
                    spec_arg_list(s@, i as int) == Some((exprs_view(args@), p as int)),
                decreases n - p,
            {
                let q = skip_ws(s, p);
                if !(q < n && s.get_char(q) == ',') {
                    proof {
                        assert(spec_arg_more(s@, p as int, exprs_view(args@)) == Some(
                            (exprs_view(args@), p as int),
                        ));
                    }
                    break ;
                }
                match p_expr(s, q + 1) {
                    Err(pos) => {
                        return Err(pos);
                    },
                    Ok((e2, p2)) => {
                        let ghost pre = args@;
                        let ghost e2v = e2@;
                        args.push(e2);
                        proof {
                            assert(args@.drop_last() =~= pre);
                            assert(exprs_view(args@) == exprs_view(pre).push(e2v));
                        }
                        p = p2;
                    },
                }
            }
            Ok((args, p))
        },
    }
}

/// Parses a unary term at `i`; a failure carries the deepest position
/// reached.
fn p_unary(s: &str, i: usize) -> (r: Result<(Expr, usize), usize>)
    requires
        i <= s@.len(),
    ensures
        match r {
            Ok(ep) => spec_unary(s@, i as int) == Some((ep.0@, ep.1 as int)) && i < ep.1
                <= s@.len(),
            Err(pos) => spec_unary(s@, i as int) is None && pos <= s@.len(),
        },
    decreases s@.len() - i, 1int,
{
    let n = s.unicode_len();
    let j = skip_ws(s, i);
    if j < n && s.get_char(j) == '-' {
        match p_unary(s, j + 1) {
            Err(pos) => Err(pos),
            Ok((e, p)) => Ok((Expr::Neg(Box::new(e)), p)),
        }
    } else {
        p_primary(s, i)
    }
}

/// Parses a multiplicative term at `i`; a failure carries the deepest
/// position reached.
#[verifier::rlimit(100)]
fn p_mul(s: &str, i: usize) -> (r: Result<(Expr, usize), usize>)
    requires
        i <= s@.len(),
    ensures
        match r {
            Ok(ep) => spec_mul(s@, i as int) == Some((ep.0@, ep.1 as int)) && i < ep.1
                <= s@.len(),
            Err(pos) => spec_mul(s@, i as int) is None && pos <= s@.len(),
        },
    decreases s@.len() - i, 3int,
{
    let n = s.unicode_len();
    match p_unary(s, i) {
        Err(pos) => Err(pos),
        Ok((e0, p0)) => {
            let mut acc = e0;
            let mut p = p0;
            loop
                invariant_except_break
                    i < p <= n,
                    n == s@.len(),
                    spec_mul(s@, i as int) == spec_mul_more(s@, p as int, acc@),
                ensures
                    i < p <= n,
                    spec_mul(s@, i as int) == Some((acc@, p as int)),
                decreases n - p,
            {
                let q = skip_ws(s, p);
                if !(q < n) {
                    break ;
                }
                let c = s.get_char(q);
                if !(c == '*' || c == '/') {
                    break ;
                }
                match p_unary(s, q + 1) {
                    Err(pos) => {
                        return Err(pos);
                    },
                    Ok((t, p2)) => {
                        if c == '*' {
                            acc = Expr::Mul(Box::new(acc), Box::new(t));
                        } else {
                            acc = Expr::Div(Box::new(acc), Box::new(t));
                        }
                        p = p2;
                    },
                }
            }
            Ok((acc, p))
        },
    }
}

/// Parses an expression at `i`; a failure carries the deepest position
/// reached.
#[verifier::rlimit(100)]
fn p_expr(s: &str, i: usize) -> (r: Result<(Expr, usize), usize>)
    requires
        i <= s@.len(),
    ensures
        match r {
            Ok(ep) => spec_expr(s@, i as int) == Some((ep.0@, ep.1 as int)) && i < ep.1
                <= s@.len(),
            Err(pos) => spec_expr(s@, i as int) is None && pos <= s@.len(),
        },
    decreases s@.len() - i, 5int,
{
    let n = s.unicode_len();
    match p_mul(s, i) {
        Err(pos) => Err(pos),
        Ok((e0, p0)) => {
            let mut acc = e0;
            let mut p = p0;
            loop
                invariant_except_break
                    i < p <= n,
                    n == s@.len(),
                    spec_expr(s@, i as int) == spec_expr_more(s@, p as int, acc@),
                ensures
                    i < p <= n,
                    spec_expr(s@, i as int) == Some((acc@, p as int)),
                decreases n - p,
            {
                let q = skip_ws(s, p);
                if !(q < n) {
                    break ;
                }
                let c = s.get_char(q);
                if !(c == '+' || c == '-') {
                    break ;
                }
                match p_mul(s, q + 1) {
                    Err(pos) => {
                        return Err(pos);
                    },
                    Ok((t, p2)) => {
                        if c == '+' {
                            acc = Expr::Add(Box::new(acc), Box::new(t));
                        } else {
                            acc = Expr::Sub(Box::new(acc), Box::new(t));
                        }
                        p = p2;
                    },
                }
            }
            Ok((acc, p))
        },
    }
}

/// Parses one statement at `i`; a failure carries the deepest position
/// reached.
#[verifier::rlimit(100)]
fn p_statement(s: &str, i: usize) -> (r: Result<(Statement, usize), usize>)
    requires
        i <= s@.len(),
    ensures
        match r {
            Ok(sp) => spec_statement(s@, i as int) == Some((sp.0@, sp.1 as int)) && i < sp.1
                <= s@.len(),
            Err(pos) => spec_statement(s@, i as int) is None && pos <= s@.len(),
        },
{
    let n = s.unicode_len();
    let j = skip_ws(s, i);
    let is_let_kw = n - j >= 3 && s.get_char(j) == 'l' && s.get_char(j + 1) == 'e' && s.get_char(
        j + 2,
    ) == 't' && (n - j == 3 || !is_alnum_char(s.get_char(j + 3)));
    proof {
        if j + 3 <= n && s@[j as int] == 'l' && s@[j as int + 1] == 'e' && s@[j as int + 2]
            == 't' {
            assert(s@.subrange(j as int, j as int + 3) =~= seq!['l', 'e', 't']);
        }
        if j + 3 <= n && s@.subrange(j as int, j as int + 3) == seq!['l', 'e', 't'] {
            assert(s@.subrange(j as int, j as int + 3)[0] == s@[j as int]);
            assert(s@.subrange(j as int, j as int + 3)[1] == s@[j as int + 1]);
            assert(s@.subrange(j as int, j as int + 3)[2] == s@[j as int + 2]);
        }
    }
    if is_let_kw {
        let j2 = skip_ws(s, j + 3);
        match p_ident(s, j2) {
            Err(pos) => Err(pos),
            Ok((name, p)) => {
                let q = skip_ws(s, p);
                if q < n && s.get_char(q) == '=' {
                    match p_expr(s, q + 1) {
                        Err(pos) => Err(pos),
                        Ok((v, p2)) => Ok(
                            (
                                Statement::DeclAssign { name: Expr::Var(name), value: v },
                                p2,
                            ),
                        ),
                    }
                } else {
                    Ok((Statement::Decl(Expr::Var(name)), p))
                }
            },
        }
    } else {
        match p_ident(s, j) {
            Err(pos) => Err(pos),
            Ok((name, p)) => {
                let q = skip_ws(s, p);
                if q < n && s.get_char(q) == '=' {
                    match p_expr(s, q + 1) {
                        Err(pos) => Err(pos),
                        Ok((v, p2)) => Ok(
                            (
                                Statement::Assign { name: Expr::Var(name), value: v },
                                p2,
                            ),
                        ),
                    }
                } else {
                    let out_lit = String::from_str("output");
                    proof {
                        reveal_strlit("output");
                        assert(out_lit@ =~= output_chars());
                    }
                    if name == out_lit && q < n && s.get_char(q) == '(' {
                        match p_expr(s, q + 1) {
                            Err(pos) => Err(pos),
                            Ok((v, p2)) => {
                                let q2 = skip_ws(s, p2);
                                if q2 < n && s.get_char(q2) == ')' {
                                    Ok((Statement::HardcodedOutput(v), q2 + 1))
                                } else {
                                    Err(q2)
                                }
                            },
                        }
                    } else {
                        Err(q)
                    }
                }
            },
        }
    }
}

/// Parses the statement list's tail, extending `stmts`.
fn p_program_more(s: &str, i: usize, stmts: Vec<Statement>) -> (r: Result<
    (Vec<Statement>, usize),
    usize,
>)
    requires
        i <= s@.len(),
    ensures
        match r {
            Ok(op) => spec_program_more(s@, i as int, stmts_view(stmts@)) == Some(
                (stmts_view(op.0@), op.1 as int),
            ) && op.1 <= s@.len(),
            Err(pos) => spec_program_more(s@, i as int, stmts_view(stmts@)) is None && pos
                <= s@.len(),
        },
    decreases s@.len() - i,
{
    let n = s.unicode_len();
    let j = skip_ws(s, i);
    if j < n && s.get_char(j) == ';' {
        let j2 = skip_ws(s, j + 1);
        if j2 >= n {
            Ok((stmts, j2))
        } else {
            match p_statement(s, j + 1) {
                Err(pos) => Err(pos),
                Ok((st, p)) => {
                    let ghost pre = stmts@;
                    let ghost stv = st@;
                    let mut stmts2 = stmts;
                    stmts2.push(st);
                    proof {
                        assert(stmts_view(stmts2@) =~= stmts_view(pre).push(stv));
                    }
                    p_program_more(s, p, stmts2)
                },
            }
        }
    } else {
        Ok((stmts, i))
    }
}

/// Parses a whole program. Parsing succeeds exactly when the input
/// derives from the grammar's `program` rule with nothing but whitespace
/// left over, and then returns the program's syntax tree; otherwise the
/// error carries the position at which the parse stopped.
pub fn parse(input: &str) -> (r: Result<Vec<Statement>, Error>)
    ensures
        match r {
            Ok(stmts) => spec_parse(input@) == Some(stmts_view(stmts@)),
            Err(er) => spec_parse(input@) is None && (er matches Error::ParseError(p) && p
                <= input@.len()),
        },
{
    let n = input.unicode_len();
    match p_statement(input, 0) {
        Err(pos) => Err(Error::ParseError(pos)),
        Ok((st, p)) => {
            let mut stmts: Vec<Statement> = Vec::new();
            let ghost stv = st@;
            stmts.push(st);
            proof {
                assert(stmts_view(stmts@) =~= seq![stv]);
            }
            match p_program_more(input, p, stmts) {
                Err(pos) => Err(Error::ParseError(pos)),
                Ok((stmts2, p2)) => {
                    let q = skip_ws(input, p2);
                    if q < n {
                        Err(Error::ParseError(q))
                    } else {
                        Ok(stmts2)
                    }
                },
            }
        },
    }
}

/// A whole program: at least one statement, statements separated by `;`,
/// an optional trailing `;`, and nothing but whitespace after the last —
/// any unconsumed trailing text fails the parse.
pub open spec fn spec_parse(s: Seq<char>) -> Option<Seq<StatementV>> {
    match spec_statement(s, 0) {
        None => None,
        Some(sp) => if 0 < sp.1 <= s.len() {
            match spec_program_more(s, sp.1, seq![sp.0]) {
                None => None,
                Some(pp) => {
                    let q = spec_ws(s, pp.1);
                    if q >= s.len() {
                        Some(pp.0)
                    } else {
                        None
                    }
                },
            }
        } else {
            None
        },
    }
}

} // verus!
