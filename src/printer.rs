//! Text of values: the debug form that `prn` and the driver show, and the
//! readable form that the reader reads back.
use vstd::prelude::*;
use crate::ast::{Ast, Val, vals_of, lemma_vals_of};
use crate::parser::{Lex, ParseErr, TokenV, lex_upto, read_spec, tokenize_spec, token_of, trim, flush};
use crate::text::{utf8_len, utf8_width, decimal, digits_of, i64_text, is_digit, is_ws, int_of_text, lemma_digits_of, lemma_int_text_round_trip};

verus! {

/// The text of a value. Readably, strings are quoted and lists are in
/// parentheses; otherwise strings are bare and lists are `[a, b]`.
pub open spec fn show(v: Val, readably: bool) -> Seq<char>
    decreases v,
{
    match v {
        Val::Integer(n) => decimal(n as int),
        Val::Str(s) => if readably {
            seq!['\''] + s + seq!['\'']
        } else {
            s
        },
        Val::Symbol(s) => s,
        Val::Boolean(b) => if b {
            seq!['t', 'r', 'u', 'e']
        } else {
            seq!['f', 'a', 'l', 's', 'e']
        },
        Val::Nil => seq!['n', 'i', 'l'],
        Val::Closure(..) => seq!['<', 'f', 'u', 'n', 'c', 't', 'i', 'o', 'n', '>'],
        Val::Builtin(name, _) => seq!['<', 'b', 'u', 'i', 'l', 't', 'i', 'n', ':'] + name + seq!['>'],
        Val::Atom(_) => seq!['<', 'a', 't', 'o', 'm', '>'],
        Val::List(xs) => if readably {
            seq!['('] + show_items(xs, readably) + seq![')']
        } else {
            seq!['['] + show_items(xs, readably) + seq![']']
        },
    }
}

pub open spec fn separator(readably: bool) -> Seq<char> {
    if readably {
        seq![' ']
    } else {
        seq![',', ' ']
    }
}

/// The items of a list, each shown, with separators between.
pub open spec fn show_items(xs: Seq<Val>, readably: bool) -> Seq<char>
    decreases xs,
{
    if xs.len() == 0 {
        Seq::empty()
    } else if xs.len() == 1 {
        show(xs[0], readably)
    } else {
        show_items(xs.drop_last(), readably) + separator(readably) + show(xs.last(), readably)
    }
}

fn push_text(out: &mut String, lit: &str)
    ensures
        final(out)@ == old(out)@ + lit@,
{
    out.append(lit);
}

/// Appends the text of `a` to `out`.
pub fn print_into(a: &Ast, readably: bool, out: &mut String)
    ensures
        final(out)@ == old(out)@ + show(a@, readably),
    decreases a,
{
    proof {
        reveal_strlit("true");
        reveal_strlit("false");
        reveal_strlit("nil");
        reveal_strlit("<function>");
        reveal_strlit("<builtin:");
        reveal_strlit(">");
        reveal_strlit("<atom>");
        reveal_strlit("'");
        reveal_strlit("(");
        reveal_strlit(")");
        reveal_strlit("[");
        reveal_strlit("]");
        reveal_strlit(" ");
        reveal_strlit(", ");
    }
    match a {
        Ast::Integer(n) => {
            let t = i64_text(*n);
            push_text(out, t.as_str());
        },
        Ast::String(s) => {
            if readably {
                push_text(out, "'");
                push_text(out, s.as_str());
                push_text(out, "'");
                assert(final(out)@ =~= old(out)@ + show(a@, readably));
            } else {
                push_text(out, s.as_str());
            }
        },
        Ast::Symbol(s) => push_text(out, s.as_str()),
        Ast::Boolean(b) => if *b {
            push_text(out, "true");
        } else {
            push_text(out, "false");
        },
        Ast::Nil => push_text(out, "nil"),
        Ast::Function(_) => push_text(out, "<function>"),
        Ast::Builtin(name, _) => {
            push_text(out, "<builtin:");
            push_text(out, name.as_str());
            push_text(out, ">");
            assert(final(out)@ =~= old(out)@ + show(a@, readably));
        },
        Ast::Atom(_) => push_text(out, "<atom>"),
        Ast::List(xs) => {
            let ghost start = out@;
            if readably {
                push_text(out, "(");
            } else {
                push_text(out, "[");
            }
            proof {
                lemma_vals_of(xs@);
                assert(decreases_to!(*a => a->List_0));
                assert(vals_of(xs@).subrange(0, 0) =~= Seq::<Val>::empty());
            }
            let ghost head = out@;
            let mut i: usize = 0;
            while i < xs.len()
                invariant
                    i <= xs.len(),
                    decreases_to!(*a => *xs),
                    vals_of(xs@).len() == xs@.len(),
                    forall|j: int| 0 <= j < xs@.len() ==> #[trigger] vals_of(xs@)[j] == crate::ast::val_of(xs@[j]),
                    out@ == head + show_items(vals_of(xs@).subrange(0, i as int), readably),
                decreases xs.len() - i,
            {
                proof {
                    vstd::std_specs::vec::axiom_vec_index_decreases(*xs, i as int);
                }
                let ghost items = vals_of(xs@).subrange(0, i + 1);
                assert(items.drop_last() =~= vals_of(xs@).subrange(0, i as int));
                assert(items.last() == xs@[i as int]@);
                let ghost mid = out@;
                proof {
                    reveal_strlit(" ");
                    reveal_strlit(", ");
                }
                if i > 0 {
                    if readably {
                        push_text(out, " ");
                    } else {
                        push_text(out, ", ");
                    }
                    assert(out@ =~= mid + separator(readably));
                }
                let ghost mid2 = out@;
                print_into(&xs[i], readably, out);
                i = i + 1;
                proof {
                    if i == 1 {
                        assert(items.len() == 1);
                        assert(show_items(vals_of(xs@).subrange(0, 0), readably) =~= Seq::<char>::empty());
                        assert(out@ =~= head + show_items(items, readably));
                    } else {
                        assert(show_items(items, readably) == show_items(items.drop_last(), readably)
                            + separator(readably) + show(items.last(), readably));
                        assert(out@ == mid2 + show(items.last(), readably));
                        assert(mid2 == head + show_items(items.drop_last(), readably) + separator(readably));
                        assert(out@ =~= head + show_items(items, readably));
                    }
                }
            }
            assert(vals_of(xs@).subrange(0, i as int) =~= vals_of(xs@));
            if readably {
                push_text(out, ")");
            } else {
                push_text(out, "]");
            }
            assert(final(out)@ =~= old(out)@ + show(a@, readably));
        },
    }
}

/// The text of `a`.
pub fn pr_str(a: &Ast, readably: bool) -> (r: String)
    ensures
        r@ == show(a@, readably),
{
    let mut out = String::new();
    print_into(a, readably, &mut out);
    assert(out@ =~= show(a@, readably));
    out
}

// ---------------------------------------------------------------- reading back

/// A character that the tokenizer keeps in the pending text: no quote,
/// parenthesis or whitespace.
pub open spec fn plain(c: char) -> bool {
    c != '\'' && c != '(' && c != ')' && !is_ws(c)
}

/// The values whose readable text reads back as themselves: integers,
/// booleans, nil, and non-empty strings without a quote character.
pub open spec fn reads_back(v: Val) -> bool {
    match v {
        Val::Integer(_) | Val::Boolean(_) | Val::Nil => true,
        Val::Str(s) => s.len() > 0 && forall|i: int| 0 <= i < s.len() ==> s[i] != '\'',
        _ => false,
    }
}

proof fn lemma_lex_plain(t: Seq<char>, k: nat)
    requires
        k <= t.len(),
        forall|i: int| 0 <= i < t.len() ==> plain(#[trigger] t[i]),
    ensures
        lex_upto(t, k) == (Lex { tokens: Seq::empty(), buf: t.subrange(0, k as int), start: 0, quoting: false }),
    decreases k,
{
    if k > 0 {
        lemma_lex_plain(t, (k - 1) as nat);
        assert(plain(t[k - 1]));
        assert(t.subrange(0, k - 1).push(t[k - 1]) =~= t.subrange(0, k as int));
    } else {
        assert(t.subrange(0, 0) =~= Seq::<char>::empty());
    }
}

proof fn lemma_lex_quoted(t: Seq<char>, k: nat)
    requires
        1 <= k <= t.len(),
        t[0] == '\'',
        forall|i: int| 1 <= i < k ==> #[trigger] t[i] != '\'',
    ensures
        lex_upto(t, k) == (Lex {
            tokens: Seq::empty(),
            buf: t.subrange(1, k as int),
            start: if k > 1 {
                1
            } else {
                0
            },
            quoting: true,
        }),
    decreases k,
{
    if k > 1 {
        lemma_lex_quoted(t, (k - 1) as nat);
        assert(t[k - 1] != '\'');
        assert(t.subrange(1, k - 1).push(t[k - 1]) =~= t.subrange(1, k as int));
        if k == 2 {
            assert(t.subrange(0, 1).drop_last() =~= Seq::<char>::empty());
            assert(t.subrange(0, 1).last() == '\'');
            assert(utf8_len(t.subrange(0, 1).drop_last()) == 0);
            assert(utf8_width('\'') == 1);
            assert(utf8_len(t.subrange(0, 1)) == 1);
        }
    } else {
        assert(lex_upto(t, 0) == (Lex { tokens: Seq::empty(), buf: Seq::empty(), start: 0, quoting: false }));
        assert(t.subrange(1, 1) =~= Seq::<char>::empty());
    }
}

/// Reading a run of plain characters gives the one token they make.
proof fn lemma_read_plain(t: Seq<char>)
    requires
        t.len() > 0,
        forall|i: int| 0 <= i < t.len() ==> plain(#[trigger] t[i]),
    ensures
        trim(t) == t,
        tokenize_spec(t) == seq![(0usize, token_of(t, false))],
{
    assert(plain(t[0]));
    assert(plain(t[t.len() - 1]));
    lemma_lex_plain(t, t.len());
    assert(t.subrange(0, t.len() as int) =~= t);
    assert(tokenize_spec(t) =~= seq![(0usize, token_of(t, false))]);
}

/// Printing a literal readably and reading the text back gives the literal.
pub proof fn lemma_read_show(v: Val)
    requires
        reads_back(v),
    ensures
        read_spec(show(v, true)) == Ok::<Val, ParseErr>(v),
{
    let t = show(v, true);
    match v {
        Val::Integer(n) => {
            let m = if n < 0 {
                (-(n as int)) as nat
            } else {
                n as nat
            };
            lemma_digits_of(m);
            assert forall|i: int| 0 <= i < t.len() implies plain(#[trigger] t[i]) by {
                if n < 0 && i == 0 {
                    assert(t[i] == '-');
                } else if n < 0 {
                    assert(t[i] == digits_of(m)[i - 1]);
                    assert(is_digit(digits_of(m)[i - 1]));
                } else {
                    assert(is_digit(digits_of(m)[i]));
                }
            }
            lemma_read_plain(t);
            lemma_int_text_round_trip(n);
        },
        Val::Boolean(b) => {
            reveal_strlit("true");
            reveal_strlit("false");
            assert forall|i: int| 0 <= i < t.len() implies plain(#[trigger] t[i]) by {}
            lemma_read_plain(t);
            assert(!is_digit(t[0]));
            assert(int_of_text(t) is None);
            if b {
                assert(t =~= "true"@);
            } else {
                assert(t =~= "false"@);
                assert(t != "true"@);
            }
        },
        Val::Nil => {
            reveal_strlit("true");
            reveal_strlit("false");
            reveal_strlit("nil");
            assert forall|i: int| 0 <= i < t.len() implies plain(#[trigger] t[i]) by {}
            lemma_read_plain(t);
            assert(!is_digit(t[0]));
            assert(int_of_text(t) is None);
            assert(t =~= "nil"@);
            assert(t != "true"@);
            assert(t != "false"@);
        },
        Val::Str(s) => {
            let n = s.len() as int;
            assert forall|i: int| 1 <= i < n + 1 implies #[trigger] t[i] != '\'' by {
                assert(t[i] == s[i - 1]);
            }
            lemma_lex_quoted(t, (n + 1) as nat);
            assert(t.subrange(1, n + 1) =~= s);
            assert(t[n + 1] == '\'');
            assert(trim(t) == t);
            let st = lex_upto(t, (n + 1) as nat);
            assert(lex_upto(t, (n + 2) as nat) == Lex { quoting: false, ..flush(st, true) });
            assert(tokenize_spec(t) =~= seq![(1usize, TokenV::Str(s))]);
        },
        _ => {},
    }
}

} // verus!
