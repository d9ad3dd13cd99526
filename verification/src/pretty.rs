//! Pretty printing of type terms for the terminal: indented, with ANSI colors.

use vstd::prelude::*;
use tiny_ansi::TinyAnsi;
use crate::term::{
    TypeTerm, TermV, KindV, PairV, FieldV, EntryV, TypeKind, ConstraintPair, StructMember, EnumVariant,
    ContextEntry, terms_view, members_view, variants_view, entries_view, pairs_view, opt_view,
    lemma_terms_view, lemma_members_view, lemma_variants_view, lemma_entries_view, lemma_pairs_view,
};
use crate::context::{ContextPtr, CtxV, spec_typename, spec_varname, spec_enter, ctx_depth};
use crate::substitution::subst_view;
use vstd::std_specs::iter::IteratorSpec;
use crate::numfmt::{spec_int_str, spec_nat_str, push_i64, push_u64};
use crate::lexer::{string_from_chars, chars_of};
use crate::unparser::{push_chars, push_str};
use crate::debug::{spec_kind_dbg, push_kind_dbg};

verus! {

//------------------------------------------------------------------
// Colors
//------------------------------------------------------------------

/// A string between the ANSI escape sequence that selects a style and the one that
/// resets it.
pub open spec fn spec_ansi(code: Seq<char>, s: Seq<char>) -> Seq<char> {
    seq!['\u{1b}', '['] + code + seq!['m'] + s + seq!['\u{1b}', '[', '0', 'm']
}

/// The styles that the pretty printer uses.
pub enum Color {
    Bold,
    Green,
    Yellow,
    Blue,
    BrightRed,
    BrightYellow,
    BrightBlue,
    BrightMagenta,
}

/// The ANSI code of a style.
pub open spec fn spec_code(c: Color) -> Seq<char> {
    match c {
        Color::Bold => seq!['1'],
        Color::Green => seq!['3', '2'],
        Color::Yellow => seq!['3', '3'],
        Color::Blue => seq!['3', '4'],
        Color::BrightRed => seq!['9', '1'],
        Color::BrightYellow => seq!['9', '3'],
        Color::BrightBlue => seq!['9', '4'],
        Color::BrightMagenta => seq!['9', '5'],
    }
}

pub open spec fn paint(c: Color, s: Seq<char>) -> Seq<char> {
    spec_ansi(spec_code(c), s)
}

/// `TinyAnsi::bold` on `str`: the string in bold.
#[verifier::external_body]
fn ansi_bold(s: &str) -> (r: String)
    ensures
        r@ == spec_ansi(seq!['1'], s@),
{
    s.bold()
}

/// `TinyAnsi::green` on `str`: the string in green.
#[verifier::external_body]
fn ansi_green(s: &str) -> (r: String)
    ensures
        r@ == spec_ansi(seq!['3', '2'], s@),
{
    s.green()
}

/// `TinyAnsi::yellow` on `str`: the string in yellow.
#[verifier::external_body]
fn ansi_yellow(s: &str) -> (r: String)
    ensures
        r@ == spec_ansi(seq!['3', '3'], s@),
{
    s.yellow()
}

/// `TinyAnsi::blue` on `str`: the string in blue.
#[verifier::external_body]
fn ansi_blue(s: &str) -> (r: String)
    ensures
        r@ == spec_ansi(seq!['3', '4'], s@),
{
    s.blue()
}

/// `TinyAnsi::bright_red` on `str`: the string in bright red.
#[verifier::external_body]
fn ansi_bright_red(s: &str) -> (r: String)
    ensures
        r@ == spec_ansi(seq!['9', '1'], s@),
{
    s.bright_red()
}

/// `TinyAnsi::bright_yellow` on `str`: the string in bright yellow.
#[verifier::external_body]
fn ansi_bright_yellow(s: &str) -> (r: String)
    ensures
        r@ == spec_ansi(seq!['9', '3'], s@),
{
    s.bright_yellow()
}

/// `TinyAnsi::bright_blue` on `str`: the string in bright blue.
#[verifier::external_body]
fn ansi_bright_blue(s: &str) -> (r: String)
    ensures
        r@ == spec_ansi(seq!['9', '4'], s@),
{
    s.bright_blue()
}

/// `TinyAnsi::bright_magenta` on `str`: the string in bright magenta.
#[verifier::external_body]
fn ansi_bright_magenta(s: &str) -> (r: String)
    ensures
        r@ == spec_ansi(seq!['9', '5'], s@),
{
    s.bright_magenta()
}

/// The characters in a style.
fn painted(c: Color, s: &Vec<char>) -> (r: Vec<char>)
    ensures
        r@ == paint(c, s@),
{
    let st = string_from_chars(s);
    let p = match c {
        Color::Bold => ansi_bold(st.as_str()),
        Color::Green => ansi_green(st.as_str()),
        Color::Yellow => ansi_yellow(st.as_str()),
        Color::Blue => ansi_blue(st.as_str()),
        Color::BrightRed => ansi_bright_red(st.as_str()),
        Color::BrightYellow => ansi_bright_yellow(st.as_str()),
        Color::BrightBlue => ansi_bright_blue(st.as_str()),
        Color::BrightMagenta => ansi_bright_magenta(st.as_str()),
    };
    chars_of(p.as_str())
}

/// Appends the characters in a style.
fn push_painted(out: &mut Vec<char>, c: Color, s: &Vec<char>)
    ensures
        final(out)@ == old(out)@ + paint(c, s@),
{
    let p = painted(c, s);
    push_chars(out, &p);
}

//------------------------------------------------------------------
// Specification
//------------------------------------------------------------------

/// `n` spaces.
pub open spec fn spaces(n: nat) -> Seq<char> {
    Seq::new(n, |i: int| ' ')
}

/// The placeholder for an unknown name.
pub open spec fn unknown_name() -> Seq<char> {
    paint(Color::BrightRed, seq!['?', '?'])
}

/// A character literal, with `\0` and `\n` escaped.
pub open spec fn spec_pretty_char(c: char) -> Seq<char> {
    if c == '\0' {
        seq!['\'', '\\', '0', '\'']
    } else if c == '\n' {
        seq!['\'', '\\', 'n', '\'']
    } else {
        seq!['\'', c, '\'']
    }
}

/// A type constant: its name in bold blue.
pub open spec fn spec_pretty_id(c: CtxV, id: u64) -> Seq<char> {
    paint(Color::Bold, paint(Color::Blue, match spec_typename(c, id as int) {
        Some(n) => n,
        None => unknown_name(),
    }))
}

/// A type variable: its name in bright magenta, then its number in brackets.
pub open spec fn spec_pretty_var(c: CtxV, id: u64) -> Seq<char> {
    paint(Color::BrightMagenta, match spec_varname(c, id as int) {
        Some(n) => n,
        None => unknown_name(),
    }) + seq!['('] + spec_nat_str(id as nat) + seq![')']
}

/// The context in which the body of a universal type is printed: a new scope of `c`
/// that declares `gamma`.
pub open spec fn univ_ctx(c: CtxV, gamma: Seq<EntryV>) -> CtxV {
    CtxV { gamma, ..spec_enter(c) }
}

/// Whether printing at this indentation stays within the machine's integers.
pub open spec fn indent_ok(indent: nat) -> bool {
    4 * (indent + 2) <= u64::MAX
}

/// The pretty notation of a term in context `c`, indented by `indent` levels of four
/// spaces; `None` where the indentation or the scope count overflows.
pub open spec fn spec_pretty(c: CtxV, t: TermV, indent: nat) -> Option<Seq<char>>
    decreases t,
{
    if !indent_ok(indent) {
        None
    } else {
        match t {
            TermV::Id(id) => Some(spec_pretty_id(c, id)),
            TermV::Var(id) => Some(spec_pretty_var(c, id)),
            TermV::Num(n) => Some(paint(Color::Bold, paint(Color::Green, spec_int_str(n as int)))),
            TermV::Char(ch) => Some(spec_pretty_char(ch)),
            TermV::Univ { gamma, bounds, tau } => if c.sub_count >= u64::MAX {
                None
            } else {
                match (spec_pretty_bounds(univ_ctx(c, gamma), bounds, indent), spec_pretty(univ_ctx(c, gamma), *tau, indent)) {
                    (Some(b), Some(x)) => Some(spec_pretty_entries(gamma) + b + x),
                    _ => None,
                }
            },
            TermV::Spec(args) => match spec_pretty_join(c, args, indent + 1) {
                Some(s) => Some(paint(Color::Yellow, seq!['<']) + s + paint(Color::Yellow, seq!['>'])),
                None => None,
            },
            TermV::Struct { repr, members } => match (spec_pretty_repr(c, repr, indent, seq![' ']), spec_pretty_members(c, members, indent)) {
                (Some(r), Some(m)) => Some(paint(Color::Bold, paint(Color::Yellow, seq!['{'])) + r + m + seq!['\n']
                    + spaces(4 * indent) + paint(Color::Bold, paint(Color::Yellow, seq!['}']))),
                _ => None,
            },
            TermV::Enum { repr, variants } => match (spec_pretty_repr(c, repr, indent, seq![' ']), spec_pretty_variants(c, variants, indent)) {
                (Some(r), Some(v)) => Some(paint(Color::Bold, paint(Color::Yellow, seq!['('])) + r + v + seq!['\n']
                    + spaces(4 * indent) + paint(Color::Bold, paint(Color::Yellow, seq![')']))),
                _ => None,
            },
            TermV::Sequence { repr, item } => match (spec_pretty_repr(c, repr, indent, Seq::empty()), spec_pretty(c, *item, indent + 1)) {
                (Some(r), Some(i)) => Some(paint(Color::Bold, paint(Color::Yellow, seq!['['])) + r + seq![' '] + i
                    + paint(Color::Bold, paint(Color::Yellow, seq![' ', ']']))),
                _ => None,
            },
            TermV::Morph(a, b) => match (spec_pretty(c, *a, indent), spec_pretty(c, *b, indent)) {
                (Some(x), Some(y)) => Some(x + paint(Color::BrightYellow, seq![' ', ' ', '~', '~', 'm', 'o', 'r', 'p', 'h', '~', '~', '>', ' ', ' ']) + y),
                _ => None,
            },
            TermV::Func(ts) => spec_pretty_lines(c, ts, indent, paint(Color::BrightYellow, seq!['-', '-', '>', ' ', ' '])),
            TermV::Ladder(rs) => spec_pretty_lines(c, rs, indent, paint(Color::Yellow, seq!['~', ' '])),
        }
    }
}

/// The representation part `~repr` of a struct, enum or sequence, then `trailing`.
pub open spec fn spec_pretty_repr(c: CtxV, repr: Option<Box<TermV>>, indent: nat, trailing: Seq<char>) -> Option<Seq<char>>
    decreases repr,
{
    match repr {
        None => Some(Seq::empty()),
        Some(r) => match spec_pretty(c, *r, indent + 1) {
            Some(s) => Some(paint(Color::Yellow, seq!['~']) + s + trailing),
            None => None,
        },
    }
}

/// The parameters of an application, separated by spaces.
pub open spec fn spec_pretty_join(c: CtxV, ts: Seq<TermV>, indent: nat) -> Option<Seq<char>>
    decreases ts,
{
    if ts.len() == 0 {
        Some(Seq::empty())
    } else {
        match (spec_pretty_join(c, ts.subrange(0, ts.len() - 1), indent), spec_pretty(c, ts[ts.len() - 1], indent)) {
            (Some(a), Some(b)) => Some(if ts.len() == 1 { b } else { a + seq![' '] + b }),
            _ => None,
        }
    }
}

/// The rungs of a ladder or the types of a function, one per line after the first,
/// each such line indented and started by `sep`.
pub open spec fn spec_pretty_lines(c: CtxV, ts: Seq<TermV>, indent: nat, sep: Seq<char>) -> Option<Seq<char>>
    decreases ts,
{
    if ts.len() == 0 {
        Some(Seq::empty())
    } else {
        match (spec_pretty_lines(c, ts.subrange(0, ts.len() - 1), indent, sep), spec_pretty(c, ts[ts.len() - 1], indent)) {
            (Some(a), Some(b)) => Some(if ts.len() == 1 { b } else { a + seq!['\n'] + spaces(4 * indent) + sep + b }),
            _ => None,
        }
    }
}

/// The members of a struct, one per line.
pub open spec fn spec_pretty_members(c: CtxV, ms: Seq<FieldV>, indent: nat) -> Option<Seq<char>>
    decreases ms,
{
    if ms.len() == 0 {
        Some(Seq::empty())
    } else {
        let m = ms[ms.len() - 1];
        match (spec_pretty_members(c, ms.subrange(0, ms.len() - 1), indent), spec_pretty(c, m.ty, indent + 2)) {
            (Some(a), Some(b)) => Some(a + seq!['\n'] + spaces(4 * (indent + 1)) + m.symbol + seq![':', ' '] + b
                + paint(Color::BrightYellow, seq![';', '\n'])),
            _ => None,
        }
    }
}

/// The variants of an enum, one per line, from the second on after a bar.
pub open spec fn spec_pretty_variants(c: CtxV, vs: Seq<FieldV>, indent: nat) -> Option<Seq<char>>
    decreases vs,
{
    if vs.len() == 0 {
        Some(Seq::empty())
    } else {
        let v = vs[vs.len() - 1];
        let bar = if vs.len() > 1 { paint(Color::Bold, paint(Color::Yellow, seq!['|', ' '])) } else { Seq::empty() };
        match (spec_pretty_variants(c, vs.subrange(0, vs.len() - 1), indent), spec_pretty(c, v.ty, indent + 2)) {
            (Some(a), Some(b)) => Some(a + seq!['\n'] + spaces(4 * (indent + 1)) + bar + v.symbol + seq![':', ' '] + b),
            _ => None,
        }
    }
}

/// The variables of a universal type: each after a bold yellow `∀`.
pub open spec fn spec_pretty_entries(es: Seq<EntryV>) -> Seq<char>
    decreases es.len(),
{
    if es.len() == 0 {
        Seq::empty()
    } else {
        let e = es[es.len() - 1];
        spec_pretty_entries(es.subrange(0, es.len() - 1)) + paint(Color::Bold, paint(Color::Yellow, seq!['∀'])) + match e.kind {
            KindV::Type => paint(Color::BrightBlue, e.symbol),
            _ => paint(Color::BrightBlue, e.symbol) + seq![':'] + spec_kind_dbg(e.kind),
        }
    }
}

/// The relation of a bound.
pub open spec fn spec_pretty_rel(p: PairV) -> Seq<char> {
    match p {
        PairV::ValueOf(_, _) => seq![':', ' '],
        PairV::Subtype(_, _) => seq![' ', '<', '=', ' '],
        PairV::Trait(_, _) => seq![' ', '>', '<', ' '],
        PairV::Parallel(_, _) => seq![' ', '|', '|', ' '],
    }
}

/// A bound: `(lhs rel rhs)`.
pub open spec fn spec_pretty_pair(c: CtxV, p: PairV, indent: nat) -> Option<Seq<char>>
    decreases p,
{
    match p {
        PairV::ValueOf(l, r) => spec_pretty_sides(spec_pretty(c, l, indent), spec_pretty_rel(p), spec_pretty(c, r, indent)),
        PairV::Subtype(l, r) => spec_pretty_sides(spec_pretty(c, l, indent), spec_pretty_rel(p), spec_pretty(c, r, indent)),
        PairV::Trait(l, r) => spec_pretty_sides(spec_pretty(c, l, indent), spec_pretty_rel(p), spec_pretty(c, r, indent)),
        PairV::Parallel(l, r) => spec_pretty_sides(spec_pretty(c, l, indent), spec_pretty_rel(p), spec_pretty(c, r, indent)),
    }
}

pub open spec fn spec_pretty_sides(x: Option<Seq<char>>, rel: Seq<char>, y: Option<Seq<char>>) -> Option<Seq<char>> {
    match (x, y) {
        (Some(a), Some(b)) => Some(seq!['('] + a + rel + b + seq![')']),
        _ => None,
    }
}

/// The bounds of a universal type.
pub open spec fn spec_pretty_bounds(c: CtxV, bs: Seq<PairV>, indent: nat) -> Option<Seq<char>>
    decreases bs,
{
    if bs.len() == 0 {
        Some(Seq::empty())
    } else {
        match (spec_pretty_bounds(c, bs.subrange(0, bs.len() - 1), indent), spec_pretty_pair(c, bs[bs.len() - 1], indent)) {
            (Some(a), Some(b)) => Some(a + b),
            _ => None,
        }
    }
}

//------------------------------------------------------------------
// Facts about the lists
//------------------------------------------------------------------

proof fn lemma_join_prefix(c: CtxV, ts: Seq<TermV>, indent: nat, i: int)
    requires
        0 <= i <= ts.len(),
        spec_pretty_join(c, ts, indent) is Some,
    ensures
        spec_pretty_join(c, ts.subrange(0, i), indent) is Some,
        i < ts.len() ==> spec_pretty(c, ts[i], indent) is Some,
    decreases ts.len() - i,
{
    if i < ts.len() {
        lemma_join_prefix(c, ts, indent, i + 1);
        let p = ts.subrange(0, i + 1);
        assert(p.subrange(0, i) =~= ts.subrange(0, i));
        assert(p[i] == ts[i]);
    } else {
        assert(ts.subrange(0, i) =~= ts);
    }
}

proof fn lemma_lines_prefix(c: CtxV, ts: Seq<TermV>, indent: nat, sep: Seq<char>, i: int)
    requires
        0 <= i <= ts.len(),
        spec_pretty_lines(c, ts, indent, sep) is Some,
    ensures
        spec_pretty_lines(c, ts.subrange(0, i), indent, sep) is Some,
        i < ts.len() ==> spec_pretty(c, ts[i], indent) is Some,
    decreases ts.len() - i,
{
    if i < ts.len() {
        lemma_lines_prefix(c, ts, indent, sep, i + 1);
        let p = ts.subrange(0, i + 1);
        assert(p.subrange(0, i) =~= ts.subrange(0, i));
        assert(p[i] == ts[i]);
    } else {
        assert(ts.subrange(0, i) =~= ts);
    }
}

proof fn lemma_members_prefix(c: CtxV, ms: Seq<FieldV>, indent: nat, i: int)
    requires
        0 <= i <= ms.len(),
        spec_pretty_members(c, ms, indent) is Some,
    ensures
        spec_pretty_members(c, ms.subrange(0, i), indent) is Some,
        i < ms.len() ==> spec_pretty(c, ms[i].ty, indent + 2) is Some,
    decreases ms.len() - i,
{
    if i < ms.len() {
        lemma_members_prefix(c, ms, indent, i + 1);
        let p = ms.subrange(0, i + 1);
        assert(p.subrange(0, i) =~= ms.subrange(0, i));
        assert(p[i] == ms[i]);
    } else {
        assert(ms.subrange(0, i) =~= ms);
    }
}

proof fn lemma_variants_prefix(c: CtxV, vs: Seq<FieldV>, indent: nat, i: int)
    requires
        0 <= i <= vs.len(),
        spec_pretty_variants(c, vs, indent) is Some,
    ensures
        spec_pretty_variants(c, vs.subrange(0, i), indent) is Some,
        i < vs.len() ==> spec_pretty(c, vs[i].ty, indent + 2) is Some,
    decreases vs.len() - i,
{
    if i < vs.len() {
        lemma_variants_prefix(c, vs, indent, i + 1);
        let p = vs.subrange(0, i + 1);
        assert(p.subrange(0, i) =~= vs.subrange(0, i));
        assert(p[i] == vs[i]);
    } else {
        assert(vs.subrange(0, i) =~= vs);
    }
}

proof fn lemma_bounds_prefix(c: CtxV, bs: Seq<PairV>, indent: nat, i: int)
    requires
        0 <= i <= bs.len(),
        spec_pretty_bounds(c, bs, indent) is Some,
    ensures
        spec_pretty_bounds(c, bs.subrange(0, i), indent) is Some,
        i < bs.len() ==> spec_pretty_pair(c, bs[i], indent) is Some,
    decreases bs.len() - i,
{
    if i < bs.len() {
        lemma_bounds_prefix(c, bs, indent, i + 1);
        let p = bs.subrange(0, i + 1);
        assert(p.subrange(0, i) =~= bs.subrange(0, i));
        assert(p[i] == bs[i]);
    } else {
        assert(bs.subrange(0, i) =~= bs);
    }
}

//------------------------------------------------------------------
// Printing
//------------------------------------------------------------------

/// Appends `n` spaces.
fn push_spaces(out: &mut Vec<char>, n: u64)
    ensures
        final(out)@ == old(out)@ + spaces(n as nat),
{
    let mut i: u64 = 0;
    while i < n
        invariant
            i <= n,
            out@ == old(out)@ + spaces(i as nat),
        decreases n - i,
    {
        out.push(' ');
        i += 1;
        assert(out@ =~= old(out)@ + spaces(i as nat));
    }
}

/// Appends a name, or the placeholder for an unknown one.
fn push_name_or_unknown(out: &mut Vec<char>, name: Option<String>)
    ensures
        final(out)@ == old(out)@ + match name {
            Some(n) => n@,
            None => unknown_name(),
        },
{
    match name {
        Some(n) => push_str(out, n.as_str()),
        None => {
            let q: Vec<char> = vec!['?', '?'];
            push_painted(out, Color::BrightRed, &q);
        },
    }
}

/// Appends the pretty notation of `t`.
fn pretty_into(t: &TypeTerm, dict: &ContextPtr, indent: u64, out: &mut Vec<char>)
    requires
        spec_pretty(dict@, t@, indent as nat) is Some,
    ensures
        final(out)@ == old(out)@ + spec_pretty(dict@, t@, indent as nat).unwrap(),
    decreases t, 1nat,
{
    let ghost c = dict@;
    let ghost o0 = out@;
    match t {
        TypeTerm::Id(id) => {
            let mut v: Vec<char> = Vec::new();
            push_name_or_unknown(&mut v, dict.get_typename(*id));
            let blue = painted(Color::Blue, &v);
            push_painted(out, Color::Bold, &blue);
        },
        TypeTerm::Var(id) => {
            let mut v: Vec<char> = Vec::new();
            push_name_or_unknown(&mut v, dict.get_varname(*id));
            push_painted(out, Color::BrightMagenta, &v);
            out.push('(');
            push_u64(out, *id);
            out.push(')');
            assert(out@ =~= o0 + spec_pretty(c, t@, indent as nat).unwrap());
        },
        TypeTerm::Num(n) => {
            let mut v: Vec<char> = Vec::new();
            push_i64(&mut v, *n);
            assert(v@ =~= spec_int_str(*n as int));
            let green = painted(Color::Green, &v);
            push_painted(out, Color::Bold, &green);
        },
        TypeTerm::Char(ch) => {
            out.push('\'');
            if *ch == '\0' {
                out.push('\\');
                out.push('0');
            } else if *ch == '\n' {
                out.push('\\');
                out.push('n');
            } else {
                out.push(*ch);
            }
            out.push('\'');
            assert(out@ =~= o0 + spec_pretty(c, t@, indent as nat).unwrap());
        },
        TypeTerm::Univ { gamma, bounds, tau } => pretty_univ(t, dict, indent, out),
        TypeTerm::Spec(args) => pretty_spec(t, dict, indent, out),
        TypeTerm::Struct { struct_repr, members } => pretty_struct(t, dict, indent, out),
        TypeTerm::Enum { enum_repr, variants } => pretty_enum(t, dict, indent, out),
        TypeTerm::Sequence { seq_repr, item } => pretty_seq(t, dict, indent, out),
        TypeTerm::Morph(a, b) => pretty_morph(t, dict, indent, out),
        TypeTerm::Func(ts) => {
            let arrow: Vec<char> = vec!['-', '-', '>', ' ', ' '];
            let sep = painted(Color::BrightYellow, &arrow);
            assert(arrow@ =~= seq!['-', '-', '>', ' ', ' ']);
            pretty_lines(ts, dict, indent, &sep, out);
        },
        TypeTerm::Ladder(rs) => {
            let tilde: Vec<char> = vec!['~', ' '];
            let sep = painted(Color::Yellow, &tilde);
            assert(tilde@ =~= seq!['~', ' ']);
            pretty_lines(rs, dict, indent, &sep, out);
        },
    }
}

/// Appends a universal type: its variables, bounds and body, in a new scope.
fn pretty_univ(t: &TypeTerm, dict: &ContextPtr, indent: u64, out: &mut Vec<char>)
    requires
        t is Univ,
        spec_pretty(dict@, t@, indent as nat) is Some,
    ensures
        final(out)@ == old(out)@ + spec_pretty(dict@, t@, indent as nat).unwrap(),
    decreases t, 0nat,
{
    let ghost c = dict@;
    let ghost o0 = out@;
    match t {
        TypeTerm::Univ { gamma, bounds, tau } => {
            let mut inner = dict.copy();
            inner.enter_scope();
            inner.set_gamma(crate::term::copy_entries(gamma));
            assert(inner@ == univ_ctx(c, entries_view(gamma@)));
            pretty_entries(gamma, out);
            pretty_bounds(bounds, &inner, indent, out);
            pretty_into(tau, &inner, indent, out);
            assert(out@ =~= o0 + spec_pretty(c, t@, indent as nat).unwrap());
        },
        _ => {},
    }
}

/// Appends an application.
fn pretty_spec(t: &TypeTerm, dict: &ContextPtr, indent: u64, out: &mut Vec<char>)
    requires
        t is Spec,
        spec_pretty(dict@, t@, indent as nat) is Some,
    ensures
        final(out)@ == old(out)@ + spec_pretty(dict@, t@, indent as nat).unwrap(),
    decreases t, 0nat,
{
    let ghost c = dict@;
    let ghost o0 = out@;
    match t {
        TypeTerm::Spec(args) => {
            let lt: Vec<char> = vec!['<'];
            let gt: Vec<char> = vec!['>'];
            push_painted(out, Color::Yellow, &lt);
            pretty_join(args, dict, indent + 1, out);
            push_painted(out, Color::Yellow, &gt);
            assert(lt@ =~= seq!['<']);
            assert(gt@ =~= seq!['>']);
            assert(out@ =~= o0 + spec_pretty(c, t@, indent as nat).unwrap());
        },
        _ => {},
    }
}

/// Appends a struct type.
fn pretty_struct(t: &TypeTerm, dict: &ContextPtr, indent: u64, out: &mut Vec<char>)
    requires
        t is Struct,
        spec_pretty(dict@, t@, indent as nat) is Some,
    ensures
        final(out)@ == old(out)@ + spec_pretty(dict@, t@, indent as nat).unwrap(),
    decreases t, 0nat,
{
    let ghost c = dict@;
    let ghost o0 = out@;
    match t {
        TypeTerm::Struct { struct_repr, members } => {
            let open: Vec<char> = vec!['{'];
            let close: Vec<char> = vec!['}'];
            let sp: Vec<char> = vec![' '];
            assert(sp@ =~= seq![' ']);
            let yo = painted(Color::Yellow, &open);
            let yc = painted(Color::Yellow, &close);
            push_painted(out, Color::Bold, &yo);
            pretty_repr(struct_repr, dict, indent, &sp, out);
            pretty_members(members, dict, indent, out);
            out.push('\n');
            push_spaces(out, 4 * indent);
            push_painted(out, Color::Bold, &yc);
            assert(open@ =~= seq!['{']);
            assert(close@ =~= seq!['}']);
            assert(sp@ =~= seq![' ']);
            assert(out@ =~= o0 + spec_pretty(c, t@, indent as nat).unwrap());
        },
        _ => {},
    }
}

/// Appends an enum type.
fn pretty_enum(t: &TypeTerm, dict: &ContextPtr, indent: u64, out: &mut Vec<char>)
    requires
        t is Enum,
        spec_pretty(dict@, t@, indent as nat) is Some,
    ensures
        final(out)@ == old(out)@ + spec_pretty(dict@, t@, indent as nat).unwrap(),
    decreases t, 0nat,
{
    let ghost c = dict@;
    let ghost o0 = out@;
    match t {
        TypeTerm::Enum { enum_repr, variants } => {
            let open: Vec<char> = vec!['('];
            let close: Vec<char> = vec![')'];
            let sp: Vec<char> = vec![' '];
            assert(sp@ =~= seq![' ']);
            let yo = painted(Color::Yellow, &open);
            let yc = painted(Color::Yellow, &close);
            push_painted(out, Color::Bold, &yo);
            pretty_repr(enum_repr, dict, indent, &sp, out);
            pretty_variants(variants, dict, indent, out);
            out.push('\n');
            push_spaces(out, 4 * indent);
            push_painted(out, Color::Bold, &yc);
            assert(open@ =~= seq!['(']);
            assert(close@ =~= seq![')']);
            assert(sp@ =~= seq![' ']);
            assert(out@ =~= o0 + spec_pretty(c, t@, indent as nat).unwrap());
        },
        _ => {},
    }
}

/// Appends a sequence type.
fn pretty_seq(t: &TypeTerm, dict: &ContextPtr, indent: u64, out: &mut Vec<char>)
    requires
        t is Sequence,
        spec_pretty(dict@, t@, indent as nat) is Some,
    ensures
        final(out)@ == old(out)@ + spec_pretty(dict@, t@, indent as nat).unwrap(),
    decreases t, 0nat,
{
    let ghost c = dict@;
    let ghost o0 = out@;
    match t {
        TypeTerm::Sequence { seq_repr, item } => {
            let open: Vec<char> = vec!['['];
            let close: Vec<char> = vec![' ', ']'];
            let none: Vec<char> = Vec::new();
            assert(none@ =~= Seq::<char>::empty());
            let yo = painted(Color::Yellow, &open);
            let yc = painted(Color::Yellow, &close);
            push_painted(out, Color::Bold, &yo);
            pretty_repr(seq_repr, dict, indent, &none, out);
            out.push(' ');
            pretty_into(item, dict, indent + 1, out);
            push_painted(out, Color::Bold, &yc);
            assert(open@ =~= seq!['[']);
            assert(close@ =~= seq![' ', ']']);
            assert(none@ =~= Seq::<char>::empty());
            assert(out@ =~= o0 + spec_pretty(c, t@, indent as nat).unwrap());
        },
        _ => {},
    }
}

/// Appends a morphism type.
fn pretty_morph(t: &TypeTerm, dict: &ContextPtr, indent: u64, out: &mut Vec<char>)
    requires
        t is Morph,
        spec_pretty(dict@, t@, indent as nat) is Some,
    ensures
        final(out)@ == old(out)@ + spec_pretty(dict@, t@, indent as nat).unwrap(),
    decreases t, 0nat,
{
    let ghost c = dict@;
    let ghost o0 = out@;
    match t {
        TypeTerm::Morph(a, b) => {
            let arrow: Vec<char> = vec![' ', ' ', '~', '~', 'm', 'o', 'r', 'p', 'h', '~', '~', '>', ' ', ' '];
            pretty_into(a, dict, indent, out);
            push_painted(out, Color::BrightYellow, &arrow);
            pretty_into(b, dict, indent, out);
            assert(arrow@ =~= seq![' ', ' ', '~', '~', 'm', 'o', 'r', 'p', 'h', '~', '~', '>', ' ', ' ']);
            assert(out@ =~= o0 + spec_pretty(c, t@, indent as nat).unwrap());
        },
        _ => {},
    }
}

/// Appends `~repr` and `trailing` where there is a representation.
fn pretty_repr(r: &Option<Box<TypeTerm>>, dict: &ContextPtr, indent: u64, trailing: &Vec<char>, out: &mut Vec<char>)
    requires
        spec_pretty_repr(dict@, opt_view(*r), indent as nat, trailing@) is Some,
        indent_ok(indent as nat),
    ensures
        final(out)@ == old(out)@ + spec_pretty_repr(dict@, opt_view(*r), indent as nat, trailing@).unwrap(),
    decreases r, 0nat,
{
    match r {
        None => {
            assert(out@ =~= old(out)@ + Seq::<char>::empty());
        },
        Some(b) => {
            let tilde: Vec<char> = vec!['~'];
            push_painted(out, Color::Yellow, &tilde);
            pretty_into(b, dict, indent + 1, out);
            push_chars(out, trailing);
            assert(tilde@ =~= seq!['~']);
            assert(out@ =~= old(out)@ + spec_pretty_repr(dict@, opt_view(*r), indent as nat, trailing@).unwrap());
        },
    }
}

/// Appends the parameters of an application, separated by spaces.
fn pretty_join(v: &Vec<TypeTerm>, dict: &ContextPtr, indent: u64, out: &mut Vec<char>)
    requires
        spec_pretty_join(dict@, terms_view(v@), indent as nat) is Some,
    ensures
        final(out)@ == old(out)@ + spec_pretty_join(dict@, terms_view(v@), indent as nat).unwrap(),
    decreases v, 0nat,
{
    let ghost c = dict@;
    let ghost tv = terms_view(v@);
    proof {
        lemma_terms_view(v@);
        assert(tv.subrange(0, 0) =~= Seq::<TermV>::empty());
    }
    let mut i: usize = 0;
    while i < v.len()
        invariant
            i <= v.len(),
            c == dict@,
            tv == terms_view(v@),
            tv.len() == v.len(),
            forall|j: int| 0 <= j < v.len() ==> #[trigger] tv[j] == v@[j]@,
            spec_pretty_join(c, tv, indent as nat) is Some,
            out@ == old(out)@ + spec_pretty_join(c, tv.subrange(0, i as int), indent as nat).unwrap(),
        decreases v.len() - i,
    {
        proof {
            lemma_join_prefix(c, tv, indent as nat, i as int);
            lemma_join_prefix(c, tv, indent as nat, i + 1);
        }
        let ghost p = tv.subrange(0, i + 1);
        assert(p.subrange(0, i as int) =~= tv.subrange(0, i as int));
        assert(p[i as int] == v@[i as int]@);
        if i > 0 {
            out.push(' ');
        }
        pretty_into(&v[i], dict, indent, out);
        assert(out@ =~= old(out)@ + spec_pretty_join(c, p, indent as nat).unwrap());
        i += 1;
    }
    assert(tv.subrange(0, v.len() as int) =~= tv);
}

/// Appends terms one per line after the first, each such line indented and started by
/// `sep`.
fn pretty_lines(v: &Vec<TypeTerm>, dict: &ContextPtr, indent: u64, sep: &Vec<char>, out: &mut Vec<char>)
    requires
        spec_pretty_lines(dict@, terms_view(v@), indent as nat, sep@) is Some,
        indent_ok(indent as nat),
    ensures
        final(out)@ == old(out)@ + spec_pretty_lines(dict@, terms_view(v@), indent as nat, sep@).unwrap(),
    decreases v, 0nat,
{
    let ghost c = dict@;
    let ghost tv = terms_view(v@);
    proof {
        lemma_terms_view(v@);
        assert(tv.subrange(0, 0) =~= Seq::<TermV>::empty());
    }
    let mut i: usize = 0;
    while i < v.len()
        invariant
            i <= v.len(),
            c == dict@,
            indent_ok(indent as nat),
            tv == terms_view(v@),
            tv.len() == v.len(),
            forall|j: int| 0 <= j < v.len() ==> #[trigger] tv[j] == v@[j]@,
            spec_pretty_lines(c, tv, indent as nat, sep@) is Some,
            out@ == old(out)@ + spec_pretty_lines(c, tv.subrange(0, i as int), indent as nat, sep@).unwrap(),
        decreases v.len() - i,
    {
        proof {
            lemma_lines_prefix(c, tv, indent as nat, sep@, i as int);
            lemma_lines_prefix(c, tv, indent as nat, sep@, i + 1);
        }
        let ghost p = tv.subrange(0, i + 1);
        assert(p.subrange(0, i as int) =~= tv.subrange(0, i as int));
        assert(p[i as int] == v@[i as int]@);
        if i > 0 {
            out.push('\n');
            push_spaces(out, 4 * indent);
            push_chars(out, sep);
        }
        pretty_into(&v[i], dict, indent, out);
        assert(out@ =~= old(out)@ + spec_pretty_lines(c, p, indent as nat, sep@).unwrap());
        i += 1;
    }
    assert(tv.subrange(0, v.len() as int) =~= tv);
}

/// Appends the members of a struct, one per line.
fn pretty_members(v: &Vec<StructMember>, dict: &ContextPtr, indent: u64, out: &mut Vec<char>)
    requires
        spec_pretty_members(dict@, members_view(v@), indent as nat) is Some,
        indent_ok(indent as nat),
    ensures
        final(out)@ == old(out)@ + spec_pretty_members(dict@, members_view(v@), indent as nat).unwrap(),
    decreases v, 0nat,
{
    let ghost c = dict@;
    let ghost mv = members_view(v@);
    proof {
        lemma_members_view(v@);
        assert(mv.subrange(0, 0) =~= Seq::<FieldV>::empty());
    }
    let semi: Vec<char> = vec![';', '\n'];
    let ysemi = painted(Color::BrightYellow, &semi);
    assert(semi@ =~= seq![';', '\n']);
    let mut i: usize = 0;
    while i < v.len()
        invariant
            i <= v.len(),
            c == dict@,
            indent_ok(indent as nat),
            mv == members_view(v@),
            mv.len() == v.len(),
            forall|j: int| 0 <= j < v.len() ==> #[trigger] mv[j] == v@[j]@,
            spec_pretty_members(c, mv, indent as nat) is Some,
            ysemi@ == paint(Color::BrightYellow, seq![';', '\n']),
            out@ == old(out)@ + spec_pretty_members(c, mv.subrange(0, i as int), indent as nat).unwrap(),
        decreases v.len() - i,
    {
        proof {
            lemma_members_prefix(c, mv, indent as nat, i as int);
            lemma_members_prefix(c, mv, indent as nat, i + 1);
        }
        let ghost p = mv.subrange(0, i + 1);
        assert(p.subrange(0, i as int) =~= mv.subrange(0, i as int));
        assert(p[i as int] == v@[i as int]@);
        out.push('\n');
        push_spaces(out, 4 * (indent + 1));
        push_str(out, v[i].symbol.as_str());
        out.push(':');
        out.push(' ');
        pretty_into(&v[i].ty, dict, indent + 2, out);
        push_chars(out, &ysemi);
        assert(out@ =~= old(out)@ + spec_pretty_members(c, p, indent as nat).unwrap());
        i += 1;
    }
    assert(mv.subrange(0, v.len() as int) =~= mv);
}

/// Appends the variants of an enum, one per line.
fn pretty_variants(v: &Vec<EnumVariant>, dict: &ContextPtr, indent: u64, out: &mut Vec<char>)
    requires
        spec_pretty_variants(dict@, variants_view(v@), indent as nat) is Some,
        indent_ok(indent as nat),
    ensures
        final(out)@ == old(out)@ + spec_pretty_variants(dict@, variants_view(v@), indent as nat).unwrap(),
    decreases v, 0nat,
{
    let ghost c = dict@;
    let ghost vv = variants_view(v@);
    proof {
        lemma_variants_view(v@);
        assert(vv.subrange(0, 0) =~= Seq::<FieldV>::empty());
    }
    let bar: Vec<char> = vec!['|', ' '];
    let ybar = painted(Color::Yellow, &bar);
    let bbar = painted(Color::Bold, &ybar);
    assert(bar@ =~= seq!['|', ' ']);
    let mut i: usize = 0;
    while i < v.len()
        invariant
            i <= v.len(),
            c == dict@,
            indent_ok(indent as nat),
            vv == variants_view(v@),
            vv.len() == v.len(),
            forall|j: int| 0 <= j < v.len() ==> #[trigger] vv[j] == v@[j]@,
            spec_pretty_variants(c, vv, indent as nat) is Some,
            bbar@ == paint(Color::Bold, paint(Color::Yellow, seq!['|', ' '])),
            out@ == old(out)@ + spec_pretty_variants(c, vv.subrange(0, i as int), indent as nat).unwrap(),
        decreases v.len() - i,
    {
        proof {
            lemma_variants_prefix(c, vv, indent as nat, i as int);
            lemma_variants_prefix(c, vv, indent as nat, i + 1);
        }
        let ghost p = vv.subrange(0, i + 1);
        assert(p.subrange(0, i as int) =~= vv.subrange(0, i as int));
        assert(p[i as int] == v@[i as int]@);
        out.push('\n');
        push_spaces(out, 4 * (indent + 1));
        if i > 0 {
            push_chars(out, &bbar);
        }
        push_str(out, v[i].symbol.as_str());
        out.push(':');
        out.push(' ');
        pretty_into(&v[i].ty, dict, indent + 2, out);
        assert(out@ =~= old(out)@ + spec_pretty_variants(c, p, indent as nat).unwrap());
        i += 1;
    }
    assert(vv.subrange(0, v.len() as int) =~= vv);
}

/// Appends the variables of a universal type.
fn pretty_entries(v: &Vec<ContextEntry>, out: &mut Vec<char>)
    ensures
        final(out)@ == old(out)@ + spec_pretty_entries(entries_view(v@)),
{
    let ghost ev = entries_view(v@);
    proof {
        lemma_entries_view(v@);
        assert(ev.subrange(0, 0) =~= Seq::<EntryV>::empty());
    }
    let forall_sym: Vec<char> = vec!['∀'];
    let yf = painted(Color::Yellow, &forall_sym);
    let bf = painted(Color::Bold, &yf);
    assert(forall_sym@ =~= seq!['∀']);
    let mut i: usize = 0;
    while i < v.len()
        invariant
            i <= v.len(),
            ev == entries_view(v@),
            ev.len() == v.len(),
            forall|j: int| 0 <= j < v.len() ==> #[trigger] ev[j] == v@[j]@,
            bf@ == paint(Color::Bold, paint(Color::Yellow, seq!['∀'])),
            out@ == old(out)@ + spec_pretty_entries(ev.subrange(0, i as int)),
        decreases v.len() - i,
    {
        let ghost p = ev.subrange(0, i + 1);
        assert(p.subrange(0, i as int) =~= ev.subrange(0, i as int));
        assert(p[i as int] == v@[i as int]@);
        push_chars(out, &bf);
        let sym = chars_of(v[i].symbol.as_str());
        push_painted(out, Color::BrightBlue, &sym);
        match &v[i].kind {
            TypeKind::Type => {},
            _ => {
                out.push(':');
                push_kind_dbg(out, &v[i].kind);
            },
        }
        assert(out@ =~= old(out)@ + spec_pretty_entries(p));
        i += 1;
    }
    assert(ev.subrange(0, v.len() as int) =~= ev);
}

/// Appends a bound.
#[verifier::rlimit(20)]
fn pretty_pair(p: &ConstraintPair, dict: &ContextPtr, indent: u64, out: &mut Vec<char>)
    requires
        spec_pretty_pair(dict@, p@, indent as nat) is Some,
    ensures
        final(out)@ == old(out)@ + spec_pretty_pair(dict@, p@, indent as nat).unwrap(),
    decreases p, 0nat,
{
    let ghost o0 = out@;
    match p {
        ConstraintPair::ValueOf(a, b) => {
            let rel: Vec<char> = vec![':', ' '];
            assert(rel@ =~= spec_pretty_rel(p@));
            out.push('(');
            pretty_into(a, dict, indent, out);
            push_chars(out, &rel);
            pretty_into(b, dict, indent, out);
            out.push(')');
            assert(out@ =~= o0 + spec_pretty_pair(dict@, p@, indent as nat).unwrap());
        },
        ConstraintPair::Subtype(a, b) => {
            let rel: Vec<char> = vec![' ', '<', '=', ' '];
            assert(rel@ =~= spec_pretty_rel(p@));
            out.push('(');
            pretty_into(a, dict, indent, out);
            push_chars(out, &rel);
            pretty_into(b, dict, indent, out);
            out.push(')');
            assert(out@ =~= o0 + spec_pretty_pair(dict@, p@, indent as nat).unwrap());
        },
        ConstraintPair::Trait(a, b) => {
            let rel: Vec<char> = vec![' ', '>', '<', ' '];
            assert(rel@ =~= spec_pretty_rel(p@));
            out.push('(');
            pretty_into(a, dict, indent, out);
            push_chars(out, &rel);
            pretty_into(b, dict, indent, out);
            out.push(')');
            assert(out@ =~= o0 + spec_pretty_pair(dict@, p@, indent as nat).unwrap());
        },
        ConstraintPair::Parallel(a, b) => {
            let rel: Vec<char> = vec![' ', '|', '|', ' '];
            assert(rel@ =~= spec_pretty_rel(p@));
            out.push('(');
            pretty_into(a, dict, indent, out);
            push_chars(out, &rel);
            pretty_into(b, dict, indent, out);
            out.push(')');
            assert(out@ =~= o0 + spec_pretty_pair(dict@, p@, indent as nat).unwrap());
        },
    }
}

/// Appends the bounds of a universal type.
fn pretty_bounds(v: &Vec<ConstraintPair>, dict: &ContextPtr, indent: u64, out: &mut Vec<char>)
    requires
        spec_pretty_bounds(dict@, pairs_view(v@), indent as nat) is Some,
    ensures
        final(out)@ == old(out)@ + spec_pretty_bounds(dict@, pairs_view(v@), indent as nat).unwrap(),
    decreases v, 0nat,
{
    let ghost c = dict@;
    let ghost bv = pairs_view(v@);
    proof {
        lemma_pairs_view(v@);
        assert(bv.subrange(0, 0) =~= Seq::<PairV>::empty());
    }
    let mut i: usize = 0;
    while i < v.len()
        invariant
            i <= v.len(),
            c == dict@,
            bv == pairs_view(v@),
            bv.len() == v.len(),
            forall|j: int| 0 <= j < v.len() ==> #[trigger] bv[j] == v@[j]@,
            spec_pretty_bounds(c, bv, indent as nat) is Some,
            out@ == old(out)@ + spec_pretty_bounds(c, bv.subrange(0, i as int), indent as nat).unwrap(),
        decreases v.len() - i,
    {
        proof {
            lemma_bounds_prefix(c, bv, indent as nat, i as int);
            lemma_bounds_prefix(c, bv, indent as nat, i + 1);
        }
        let ghost p = bv.subrange(0, i + 1);
        assert(p.subrange(0, i as int) =~= bv.subrange(0, i as int));
        assert(p[i as int] == v@[i as int]@);
        pretty_pair(&v[i], dict, indent, out);
        assert(out@ =~= old(out)@ + spec_pretty_bounds(c, p, indent as nat).unwrap());
        i += 1;
    }
    assert(bv.subrange(0, v.len() as int) =~= bv);
}

impl TypeTerm {
    /// The notation of the term for the terminal, with the names of `dict`, indented by
    /// `indent` levels: ladder rungs, function types, struct members and enum variants on
    /// lines of their own, names and delimiters in color.
    pub fn pretty(&self, dict: &ContextPtr, indent: u64) -> (r: String)
        requires
            spec_pretty(dict@, self@, indent as nat) is Some,
        ensures
            spec_pretty(dict@, self@, indent as nat) == Some(r@),
    {
        let mut out: Vec<char> = Vec::new();
        pretty_into(self, dict, indent, &mut out);
        assert(out@ =~= spec_pretty(dict@, self@, indent as nat).unwrap());
        string_from_chars(&out)
    }
}

impl StructMember {
    /// `symbol: type`, the type printed one level deeper.
    pub fn pretty(&self, dict: &ContextPtr, indent: u64) -> (r: String)
        requires
            indent < u64::MAX,
            spec_pretty(dict@, self.ty@, (indent + 1) as nat) is Some,
        ensures
            r@ == self.symbol@ + seq![':', ' '] + spec_pretty(dict@, self.ty@, (indent + 1) as nat).unwrap(),
    {
        let mut out: Vec<char> = Vec::new();
        push_str(&mut out, self.symbol.as_str());
        out.push(':');
        out.push(' ');
        pretty_into(&self.ty, dict, indent + 1, &mut out);
        assert(out@ =~= self.symbol@ + seq![':', ' '] + spec_pretty(dict@, self.ty@, (indent + 1) as nat).unwrap());
        string_from_chars(&out)
    }
}

impl EnumVariant {
    /// `symbol: type`, the type printed one level deeper.
    pub fn pretty(&self, dict: &ContextPtr, indent: u64) -> (r: String)
        requires
            indent < u64::MAX,
            spec_pretty(dict@, self.ty@, (indent + 1) as nat) is Some,
        ensures
            r@ == self.symbol@ + seq![':', ' '] + spec_pretty(dict@, self.ty@, (indent + 1) as nat).unwrap(),
    {
        let mut out: Vec<char> = Vec::new();
        push_str(&mut out, self.symbol.as_str());
        out.push(':');
        out.push(' ');
        pretty_into(&self.ty, dict, indent + 1, &mut out);
        assert(out@ =~= self.symbol@ + seq![':', ' '] + spec_pretty(dict@, self.ty@, (indent + 1) as nat).unwrap());
        string_from_chars(&out)
    }
}

impl ConstraintPair {
    /// `(lhs rel rhs)`, with `:`, `<=`, `><` or `||` for the relation.
    pub fn pretty(&self, dict: &ContextPtr, indent: u64) -> (r: String)
        requires
            spec_pretty_pair(dict@, self@, indent as nat) is Some,
        ensures
            spec_pretty_pair(dict@, self@, indent as nat) == Some(r@),
    {
        let mut out: Vec<char> = Vec::new();
        pretty_pair(self, dict, indent, &mut out);
        assert(out@ =~= spec_pretty_pair(dict@, self@, indent as nat).unwrap());
        string_from_chars(&out)
    }
}

//------------------------------------------------------------------
// Contexts
//------------------------------------------------------------------

/// The name of variable `v` in `c`, or `??`.
pub open spec fn spec_name_or_unknown(c: CtxV, v: u64) -> Seq<char> {
    match spec_varname(c, v as int) {
        Some(n) => n,
        None => seq!['?', '?'],
    }
}

/// The declarations of a layer: `symbol ↦ kind;` for each, the kind in its `Debug`
/// notation.
pub open spec fn spec_entries_text(g: Seq<EntryV>) -> Seq<char>
    decreases g.len(),
{
    if g.len() == 0 {
        Seq::empty()
    } else {
        spec_entries_text(g.drop_last()) + g.last().symbol + seq![' ', '↦', ' '] + spec_kind_dbg(g.last().kind) + seq![';']
    }
}

/// The bindings of variables `ks` in layer `c`: `name(v) ↦ term;` for each, in that
/// order; `None` where a term cannot be printed.
pub open spec fn spec_bindings_text(c: CtxV, ks: Seq<u64>) -> Option<Seq<char>>
    decreases ks.len(),
{
    if ks.len() == 0 {
        Some(Seq::empty())
    } else {
        let v = ks.last();
        match (spec_bindings_text(c, ks.drop_last()), spec_pretty(c, c.sigma[v], 0)) {
            (Some(a), Some(t)) => Some(a + spec_name_or_unknown(c, v) + seq!['('] + spec_nat_str(v as nat)
                + seq![')', ' ', '↦', ' '] + t + seq![';']),
            _ => None,
        }
    }
}

/// The text of the top layer of `c`, its bindings in the order `ks`.
pub open spec fn spec_layer_text(c: CtxV, ks: Seq<u64>) -> Option<Seq<char>> {
    match spec_bindings_text(c, ks) {
        Some(b) => Some(seq!['('] + c.name + seq![')', ' ', '∀', '{'] + spec_entries_text(c.gamma) + seq!['}']
            + seq![',', 'σ', '=', '{'] + b + seq!['}']),
        None => None,
    }
}

/// Whether `ks` lists the variables bound in `m`, and nothing else.
pub open spec fn spec_lists_keys(ks: Seq<u64>, m: Map<u64, TermV>) -> bool {
    &&& forall|i: int| 0 <= i < ks.len() ==> m.contains_key(#[trigger] ks[i])
    &&& forall|k: u64| #[trigger] m.contains_key(k) ==> ks.contains(k)
}

/// Whether `orders` lists, layer by layer from the top, the variables bound in each
/// layer of `c`.
pub open spec fn spec_orders_ok(c: CtxV, orders: Seq<Seq<u64>>) -> bool
    decreases c,
{
    &&& orders.len() == ctx_depth(c)
    &&& orders.len() >= 1
    &&& spec_lists_keys(orders[0], c.sigma)
    &&& match c.parent {
        Some(p) => spec_orders_ok(*p, orders.drop_first()),
        None => true,
    }
}

/// The text of a context, layer by layer from the top joined by `.`, the bindings of
/// each layer in the order that `orders` gives for it.
pub open spec fn spec_ctx_text(c: CtxV, orders: Seq<Seq<u64>>) -> Option<Seq<char>>
    decreases c,
{
    if orders.len() == 0 {
        None
    } else {
        match spec_layer_text(c, orders[0]) {
            Some(l) => match c.parent {
                Some(p) => match spec_ctx_text(*p, orders.drop_first()) {
                    Some(rest) => Some(l + seq!['.'] + rest),
                    None => None,
                },
                None => Some(l),
            },
            None => None,
        }
    }
}

/// Whether every bound term of every layer of `c` can be printed in its layer.
pub open spec fn spec_ctx_printable(c: CtxV) -> bool
    decreases c,
{
    &&& forall|k: u64| #[trigger] c.sigma.contains_key(k) ==> spec_pretty(c, c.sigma[k], 0) is Some
    &&& match c.parent {
        Some(p) => spec_ctx_printable(*p),
        None => true,
    }
}

/// Pushes the declarations of a layer.
fn push_entries(out: &mut Vec<char>, g: &Vec<ContextEntry>)
    ensures
        final(out)@ == old(out)@ + spec_entries_text(entries_view(g@)),
{
    proof { lemma_entries_view(g@); }
    let mut i: usize = 0;
    let ghost o0 = out@;
    assert(entries_view(g@).subrange(0, 0) =~= Seq::<EntryV>::empty());
    while i < g.len()
        invariant
            i <= g.len(),
            entries_view(g@).len() == g.len(),
            forall|j: int| 0 <= j < g.len() ==> #[trigger] entries_view(g@)[j] == g@[j]@,
            out@ == o0 + spec_entries_text(entries_view(g@).subrange(0, i as int)),
        decreases g.len() - i,
    {
        let ghost before = out@;
        push_str(out, g[i].symbol.as_str());
        out.push(' ');
        out.push('↦');
        out.push(' ');
        push_kind_dbg(out, &g[i].kind);
        out.push(';');
        proof {
            let sub = entries_view(g@).subrange(0, i + 1);
            assert(sub.drop_last() =~= entries_view(g@).subrange(0, i as int));
            assert(sub.last() == g@[i as int]@);
            assert(out@ =~= o0 + spec_entries_text(sub));
        }
        i += 1;
    }
    assert(entries_view(g@).subrange(0, g.len() as int) =~= entries_view(g@));
}

impl ContextPtr {
    /// The context as text, layer by layer from the top joined by `.`: for each layer
    /// `(name) ∀{symbol ↦ kind;..},σ={name(v) ↦ term;..}`, the bindings in the order the
    /// layer's map yields them.
    pub fn pretty(&self) -> (r: String)
        requires
            spec_ctx_printable(self@),
        ensures
            exists|orders: Seq<Seq<u64>>| spec_orders_ok(self@, orders) && spec_ctx_text(self@, orders) == Some(r@),
        decreases ctx_depth(self@),
    {
        let mut out: Vec<char> = Vec::new();
        let ks_g = self.pretty_layer(&mut out);
        let ghost ks = ks_g@;
        match self.get_parent() {
            Some(p) => {
                out.push('.');
                let rest = p.pretty();
                let ghost o = out@;
                push_str(&mut out, rest.as_str());
                proof {
                    let orders_p = choose|orders: Seq<Seq<u64>>| spec_orders_ok(p@, orders) && spec_ctx_text(p@, orders) == Some(rest@);
                    let orders = seq![ks] + orders_p;
                    assert(orders.drop_first() =~= orders_p);
                    assert(orders[0] == ks);
                    assert(spec_orders_ok(self@, orders));
                    assert(out@ =~= spec_ctx_text(self@, orders).unwrap());
                }
            },
            None => {
                proof {
                    let orders = seq![ks];
                    assert(spec_orders_ok(self@, orders));
                    assert(out@ =~= spec_ctx_text(self@, orders).unwrap());
                }
            },
        }
        string_from_chars(&out)
    }

    /// Pushes the text of the top layer; the result lists its bindings in the order
    /// they were printed.
    fn pretty_layer(&self, out: &mut Vec<char>) -> (ks: Ghost<Seq<u64>>)
        requires
            spec_ctx_printable(self@),
        ensures
            spec_lists_keys(ks@, self@.sigma),
            spec_layer_text(self@, ks@) is Some,
            final(out)@ == old(out)@ + spec_layer_text(self@, ks@).unwrap(),
    {
        broadcast use vstd::std_specs::hash::group_hash_axioms;
        out.push('(');
        let name = self.get_ctxname();
        push_str(out, name.as_str());
        out.push(')');
        out.push(' ');
        out.push('∀');
        out.push('{');
        let g = self.get_gamma();
        push_entries(out, &g);
        out.push('}');
        out.push(',');
        out.push('σ');
        out.push('=');
        out.push('{');
        let ghost head = out@;
        let sigma = self.get_sigma();
        let ghost v = vstd::std_specs::hash::spec_hash_map_iter(sigma).remaining();
        let ghost mut ks: Seq<u64> = Seq::empty();
        for kv in it: sigma.iter()
            invariant
                v == vstd::std_specs::hash::spec_hash_map_iter(sigma).remaining(),
                it.seq() == v,
                subst_view(*sigma) == self@.sigma,
                spec_ctx_printable(self@),
                ks.len() == it.index(),
                forall|j: int| 0 <= j < ks.len() ==> ks[j] == *v[j].0,
                forall|j: int| 0 <= j < ks.len() ==> self@.sigma.contains_key(#[trigger] ks[j]),
                spec_bindings_text(self@, ks) is Some,
                out@ == head + spec_bindings_text(self@, ks).unwrap(),
        {
            let (k, t) = kv;
            proof {
                assert(v.contains((k, t)));
                assert(sigma@.contains_key(*k) && sigma@[*k] == *t);
                assert(self@.sigma.contains_key(*k));
                assert(self@.sigma[*k] == t@);
            }
            let ghost before = out@;
            match self.get_varname(*k) {
                Some(n) => push_str(out, n.as_str()),
                None => {
                    out.push('?');
                    out.push('?');
                },
            }
            out.push('(');
            push_u64(out, *k);
            out.push(')');
            out.push(' ');
            out.push('↦');
            out.push(' ');
            let txt = t.pretty(self, 0);
            push_str(out, txt.as_str());
            out.push(';');
            proof {
                let ks2 = ks.push(*k);
                assert(ks2.drop_last() =~= ks);
                assert(ks2.last() == *k);
                ks = ks2;
                assert(out@ =~= head + spec_bindings_text(self@, ks).unwrap());
            }
        }
        out.push('}');
        proof {
            assert forall|k: u64| #[trigger] self@.sigma.contains_key(k) implies ks.contains(k) by {
                assert(sigma@.contains_key(k));
                assert(v.contains((&k, &sigma@[k])));
                let j = choose|j: int| 0 <= j < v.len() && v[j] == (&k, &sigma@[k]);
                assert(ks[j] == k);
            }
            assert(out@ =~= old(out)@ + spec_layer_text(self@, ks).unwrap());
        }
        Ghost(ks)
    }
}

//------------------------------------------------------------------
// Laws: the notation of an application
//------------------------------------------------------------------

/// An application of two parameters is printed as a yellow `<`, the first parameter, a
/// single space, the second parameter and a yellow `>`, both parameters one level deeper;
/// it cannot be printed exactly where one of its parameters cannot.
pub proof fn law_pretty_application_pair(c: CtxV, a: TermV, b: TermV, indent: nat)
    ensures
        spec_pretty(c, TermV::Spec(seq![a, b]), indent) == match (spec_pretty(c, a, indent + 1), spec_pretty(c, b, indent + 1)) {
            (Some(x), Some(y)) => Some(paint(Color::Yellow, seq!['<']) + x + seq![' '] + y + paint(Color::Yellow, seq!['>'])),
            _ => None,
        },
{
    let ts = seq![a, b];
    let k = indent + 1;
    assert(ts.subrange(0, 1) =~= seq![a]);
    assert(seq![a].subrange(0, 0) =~= Seq::<TermV>::empty());
    assert(ts[1] == b);
    assert(seq![a][0] == a);
    assert(spec_pretty_join(c, Seq::<TermV>::empty(), k) == Some(Seq::<char>::empty()));
    assert(spec_pretty_join(c, seq![a], k) == match spec_pretty(c, a, k) {
        Some(x) => Some(x),
        None => None,
    });
    if !indent_ok(indent) {
        assert(!indent_ok(k));
    } else if let (Some(x), Some(y)) = (spec_pretty(c, a, k), spec_pretty(c, b, k)) {
        assert(spec_pretty_join(c, ts, k) == Some(x + seq![' '] + y));
        let open = paint(Color::Yellow, seq!['<']);
        let close = paint(Color::Yellow, seq!['>']);
        assert(open + (x + seq![' '] + y) + close =~= open + x + seq![' '] + y + close);
    }
}

/// One more parameter at the end of an application (of at least one parameter) is printed
/// after a single space, one level deeper, just before the closing yellow `>`; the rest of
/// the notation stays as it was.
pub proof fn law_pretty_application_extend(c: CtxV, ts: Seq<TermV>, t: TermV, indent: nat, s: Seq<char>, x: Seq<char>)
    requires
        ts.len() >= 1,
        spec_pretty(c, TermV::Spec(ts), indent) == Some(paint(Color::Yellow, seq!['<']) + s + paint(Color::Yellow, seq!['>'])),
        spec_pretty(c, t, indent + 1) == Some(x),
    ensures
        spec_pretty(c, TermV::Spec(ts.push(t)), indent)
            == Some(paint(Color::Yellow, seq!['<']) + s + seq![' '] + x + paint(Color::Yellow, seq!['>'])),
{
    let k = indent + 1;
    let open = paint(Color::Yellow, seq!['<']);
    let close = paint(Color::Yellow, seq!['>']);
    let u = ts.push(t);
    assert(u.subrange(0, u.len() - 1) =~= ts);
    assert(u[u.len() - 1] == t);
    let a = spec_pretty_join(c, ts, k).unwrap();
    assert(open + a + close == open + s + close);
    let w = open + s + close;
    assert forall|i: int| 0 <= i < s.len() implies s[i] == a[i] by {
        assert(w[open.len() + i] == s[i]);
        assert((open + a + close)[open.len() + i] == a[i]);
    }
    assert(s =~= a);
    assert(spec_pretty_join(c, u, k) == Some(a + seq![' '] + x));
    assert(open + (a + seq![' '] + x) + close =~= open + s + seq![' '] + x + close);
}

/// A ladder of two rungs is printed as the upper rung, a line break, the indentation, a
/// yellow `~ ` and the lower rung; a function type of two types likewise with a bright
/// yellow `--> `.  Both parts are printed at the same level, and the whole cannot be
/// printed exactly where one of them cannot.
pub proof fn law_pretty_two_lines(c: CtxV, a: TermV, b: TermV, indent: nat)
    ensures
        spec_pretty(c, TermV::Ladder(seq![a, b]), indent) == match (spec_pretty(c, a, indent), spec_pretty(c, b, indent)) {
            (Some(x), Some(y)) => Some(x + seq!['\n'] + spaces(4 * indent) + paint(Color::Yellow, seq!['~', ' ']) + y),
            _ => None,
        },
        spec_pretty(c, TermV::Func(seq![a, b]), indent) == match (spec_pretty(c, a, indent), spec_pretty(c, b, indent)) {
            (Some(x), Some(y)) => Some(x + seq!['\n'] + spaces(4 * indent) + paint(Color::BrightYellow, seq!['-', '-', '>', ' ', ' ']) + y),
            _ => None,
        },
{
    let ts = seq![a, b];
    assert(ts.subrange(0, 1) =~= seq![a]);
    assert(seq![a].subrange(0, 0) =~= Seq::<TermV>::empty());
    assert(ts[1] == b);
    assert(seq![a][0] == a);
    let ladder_sep = paint(Color::Yellow, seq!['~', ' ']);
    let func_sep = paint(Color::BrightYellow, seq!['-', '-', '>', ' ', ' ']);
    assert(spec_pretty_lines(c, Seq::<TermV>::empty(), indent, ladder_sep) == Some(Seq::<char>::empty()));
    assert(spec_pretty_lines(c, Seq::<TermV>::empty(), indent, func_sep) == Some(Seq::<char>::empty()));
    assert(spec_pretty_lines(c, seq![a], indent, ladder_sep) == spec_pretty(c, a, indent));
    assert(spec_pretty_lines(c, seq![a], indent, func_sep) == spec_pretty(c, a, indent));
    if let (Some(x), Some(y)) = (spec_pretty(c, a, indent), spec_pretty(c, b, indent)) {
        assert(indent_ok(indent));
        assert(spec_pretty_lines(c, ts, indent, ladder_sep) == Some(x + seq!['\n'] + spaces(4 * indent) + ladder_sep + y));
        assert(spec_pretty_lines(c, ts, indent, func_sep) == Some(x + seq!['\n'] + spaces(4 * indent) + func_sep + y));
    } else if indent_ok(indent) {
        assert(spec_pretty_lines(c, ts, indent, ladder_sep) is None);
        assert(spec_pretty_lines(c, ts, indent, func_sep) is None);
    }
}

/// Equal texts with the same end are equal before it.
proof fn lemma_cancel_suffix(x: Seq<char>, y: Seq<char>, t: Seq<char>)
    requires
        x + t == y + t,
    ensures
        x == y,
{
    assert((x + t).len() == (y + t).len());
    assert((x + t).len() == x.len() + t.len());
    assert((y + t).len() == y.len() + t.len());
    assert(x.len() == y.len());
    assert forall|i: int| 0 <= i < x.len() implies x[i] == y[i] by {
        assert((x + t)[i] == x[i]);
        assert((y + t)[i] == y[i]);
    }
    assert(x =~= y);
}

/// One more member at the end of a structure is printed on a line of its own, one level
/// deeper than the braces, as its name, `: ` and its type (two levels deeper) and a bright
/// yellow `;`, just before the line of the closing brace; the rest stays as it was.
pub proof fn law_pretty_struct_extend(c: CtxV, repr: Option<Box<TermV>>, ms: Seq<FieldV>, m: FieldV, indent: nat, s: Seq<char>, b: Seq<char>)
    requires
        spec_pretty(c, TermV::Struct { repr, members: ms }, indent)
            == Some(s + seq!['\n'] + spaces(4 * indent) + paint(Color::Bold, paint(Color::Yellow, seq!['}']))),
        spec_pretty(c, m.ty, indent + 2) == Some(b),
    ensures
        spec_pretty(c, TermV::Struct { repr, members: ms.push(m) }, indent)
            == Some(s + seq!['\n'] + spaces(4 * (indent + 1)) + m.symbol + seq![':', ' '] + b
                + paint(Color::BrightYellow, seq![';', '\n'])
                + seq!['\n'] + spaces(4 * indent) + paint(Color::Bold, paint(Color::Yellow, seq!['}']))),
{
    let open = paint(Color::Bold, paint(Color::Yellow, seq!['{']));
    let tail = seq!['\n'] + spaces(4 * indent) + paint(Color::Bold, paint(Color::Yellow, seq!['}']));
    let line = seq!['\n'] + spaces(4 * (indent + 1)) + m.symbol + seq![':', ' '] + b + paint(Color::BrightYellow, seq![';', '\n']);
    let r = spec_pretty_repr(c, repr, indent, seq![' '])->0;
    let mt = spec_pretty_members(c, ms, indent)->0;
    let u = ms.push(m);
    assert(u.subrange(0, u.len() - 1) =~= ms);
    assert(u[u.len() - 1] == m);
    assert(spec_pretty_members(c, u, indent) == Some(mt + line));
    assert(open + r + mt + seq!['\n'] + spaces(4 * indent) + paint(Color::Bold, paint(Color::Yellow, seq!['}']))
        =~= (open + r + mt) + tail);
    assert(s + seq!['\n'] + spaces(4 * indent) + paint(Color::Bold, paint(Color::Yellow, seq!['}'])) =~= s + tail);
    lemma_cancel_suffix(s, open + r + mt, tail);
    assert(open + r + (mt + line) + seq!['\n'] + spaces(4 * indent) + paint(Color::Bold, paint(Color::Yellow, seq!['}']))
        =~= s + seq!['\n'] + spaces(4 * (indent + 1)) + m.symbol + seq![':', ' '] + b
            + paint(Color::BrightYellow, seq![';', '\n'])
            + seq!['\n'] + spaces(4 * indent) + paint(Color::Bold, paint(Color::Yellow, seq!['}'])));
}

/// One more variant at the end of an enumeration (of at least one variant) is printed on a
/// line of its own, one level deeper than the parentheses, after a bold yellow `| `, as
/// its name, `: ` and its type (two levels deeper), just before the line of the closing
/// parenthesis; the rest stays as it was.
pub proof fn law_pretty_enum_extend(c: CtxV, repr: Option<Box<TermV>>, vs: Seq<FieldV>, v: FieldV, indent: nat, s: Seq<char>, b: Seq<char>)
    requires
        vs.len() >= 1,
        spec_pretty(c, TermV::Enum { repr, variants: vs }, indent)
            == Some(s + seq!['\n'] + spaces(4 * indent) + paint(Color::Bold, paint(Color::Yellow, seq![')']))),
        spec_pretty(c, v.ty, indent + 2) == Some(b),
    ensures
        spec_pretty(c, TermV::Enum { repr, variants: vs.push(v) }, indent)
            == Some(s + seq!['\n'] + spaces(4 * (indent + 1)) + paint(Color::Bold, paint(Color::Yellow, seq!['|', ' ']))
                + v.symbol + seq![':', ' '] + b
                + seq!['\n'] + spaces(4 * indent) + paint(Color::Bold, paint(Color::Yellow, seq![')']))),
{
    let open = paint(Color::Bold, paint(Color::Yellow, seq!['(']));
    let close = paint(Color::Bold, paint(Color::Yellow, seq![')']));
    let tail = seq!['\n'] + spaces(4 * indent) + close;
    let bar = paint(Color::Bold, paint(Color::Yellow, seq!['|', ' ']));
    let line = seq!['\n'] + spaces(4 * (indent + 1)) + bar + v.symbol + seq![':', ' '] + b;
    let r = spec_pretty_repr(c, repr, indent, seq![' '])->0;
    let vt = spec_pretty_variants(c, vs, indent)->0;
    let u = vs.push(v);
    assert(u.subrange(0, u.len() - 1) =~= vs);
    assert(u[u.len() - 1] == v);
    assert(spec_pretty_variants(c, u, indent) == Some(vt + line));
    assert(open + r + vt + seq!['\n'] + spaces(4 * indent) + close =~= (open + r + vt) + tail);
    assert(s + seq!['\n'] + spaces(4 * indent) + close =~= s + tail);
    lemma_cancel_suffix(s, open + r + vt, tail);
    assert(open + r + (vt + line) + seq!['\n'] + spaces(4 * indent) + close
        =~= s + seq!['\n'] + spaces(4 * (indent + 1)) + bar + v.symbol + seq![':', ' '] + b
            + seq!['\n'] + spaces(4 * indent) + close);
}

} // verus!
