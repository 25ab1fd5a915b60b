//! What symbols say.

use vstd::prelude::*;

use crate::ast::Type;
use crate::mangle::{
    all_spellable, has_symbol, list_spelling, rest_spelling, spellable, spelling, symbol,
};
use crate::names::{law_decimal_reads_back, reading};
use crate::text::decimal;

verus! {

/// Whether a text says a type: a letter says what kind of type it is, with a capital
/// for what can be changed, and what follows says the rest of it.
pub open spec fn says(s: Seq<char>, t: Type<'_>) -> bool
    decreases t,
{
    &&& s.len() > 0
    &&& match t {
        Type::Int(signed, bits) => {
            &&& s[0] == if signed {
                'i'
            } else {
                'u'
            }
            &&& s.len() > 1
            &&& reading(s.drop_first()) == bits
            &&& bits > 0 ==> s[1] != '0'
        },
        Type::F32 => s.len() == 1 && s[0] == 'f',
        Type::F64 => s.len() == 1 && s[0] == 'F',
        Type::Tuple(v) => v@.len() == 0 && s.len() == 1 && s[0] == 'N',
        Type::Pointer(mutable, u) => {
            &&& s[0] == if mutable {
                'P'
            } else {
                'p'
            }
            &&& says(s.drop_first(), *u)
        },
        Type::Slice(mutable, u) => {
            &&& s[0] == if mutable {
                'S'
            } else {
                's'
            }
            &&& says(s.drop_first(), *u)
        },
        Type::Function(a, r) => {
            &&& s[0] == 'U'
            &&& exists|cut: int|
                1 <= cut < s.len() && #[trigger] s[cut] == ':' && says_all(
                    s.subrange(1, cut),
                    a@,
                ) && says(s.skip(cut + 1), *r)
        },
        _ => false,
    }
}

/// Whether a text says some types, one after the other, with commas between them.
pub open spec fn says_all(s: Seq<char>, ts: Seq<Type<'_>>) -> bool
    decreases ts,
{
    if ts.len() == 0 {
        s.len() == 0
    } else if ts.len() == 1 {
        says(s, ts[0])
    } else {
        exists|cut: int|
            0 <= cut < s.len() && #[trigger] s[cut] == ',' && says(s.take(cut), ts[0]) && says_all(
                s.skip(cut + 1),
                ts.drop_first(),
            )
    }
}

/// What is spelled of a type says the type.
pub proof fn law_spelling_says_type(t: Type<'_>)
    requires
        spellable(t),
    ensures
        says(spelling(t), t),
    decreases t,
{
    let s = spelling(t);
    match t {
        Type::Int(_, bits) => {
            law_decimal_reads_back(bits as nat);
            assert(s.drop_first() =~= decimal(bits as nat));
            assert(s[1] == decimal(bits as nat)[0]);
        },
        Type::Pointer(_, u) | Type::Slice(_, u) => {
            law_spelling_says_type(*u);
            assert(s.drop_first() =~= spelling(*u));
        },
        Type::Function(a, r) => {
            lemma_list_says(a@);
            law_spelling_says_type(*r);
            let cut = 1 + list_spelling(a@).len() as int;
            assert(s.subrange(1, cut) =~= list_spelling(a@));
            assert(s.skip(cut + 1) =~= spelling(*r));
            assert(s[cut] == ':');
        },
        _ => {},
    }
}

proof fn lemma_rest(ts: Seq<Type<'_>>)
    requires
        ts.len() > 0,
    ensures
        rest_spelling(ts) == seq![','] + list_spelling(ts),
{
    assert(rest_spelling(ts) =~= seq![','] + list_spelling(ts));
}

proof fn lemma_list_says(ts: Seq<Type<'_>>)
    requires
        all_spellable(ts),
    ensures
        says_all(list_spelling(ts), ts),
    decreases ts,
{
    if ts.len() > 0 {
        let s = list_spelling(ts);
        let more = ts.drop_first();
        law_spelling_says_type(ts[0]);
        lemma_list_says(more);
        if ts.len() == 1 {
            assert(rest_spelling(more) =~= Seq::<char>::empty());
            assert(s =~= spelling(ts[0]));
        } else {
            lemma_rest(more);
            let cut = spelling(ts[0]).len() as int;
            assert(s.take(cut) =~= spelling(ts[0]));
            assert(s.skip(cut + 1) =~= list_spelling(more));
            assert(s[cut] == ',');
        }
    }
}

/// Whether what comes after the name in a symbol says parameters and a result.
pub open spec fn says_signature(s: Seq<char>, args: Seq<Type<'_>>, ret: Type<'_>) -> bool {
    exists|cut: int|
        0 <= cut < s.len() && #[trigger] s[cut] == ':' && says_all(s.take(cut), args) && says(
            s.skip(cut + 1),
            ret,
        )
}

/// The symbol of a function says its name, its parameters in order, and its result.
/// The symbol of `main` is its name.
pub proof fn law_symbol_says_function(name: Seq<char>, args: Seq<Type<'_>>, ret: Type<'_>)
    requires
        has_symbol(name, args, ret),
    ensures
        name == "main"@ ==> symbol(name, args, ret) == name,
        name != "main"@ ==> {
            let s = symbol(name, args, ret);
            let n = name.len() as int;
            &&& s.len() > n + 5
            &&& s.take(4) == seq!['a', 'm', 'y', '_']
            &&& s.subrange(4, n + 4) == name
            &&& s[n + 4] == '@'
            &&& says_signature(s.skip(n + 5), args, ret)
        },
{
    if name != "main"@ {
        reveal_strlit("amy_");
        let s = symbol(name, args, ret);
        let n = name.len() as int;
        lemma_list_says(args);
        law_spelling_says_type(ret);
        let list = list_spelling(args);
        let tail = list + seq![':'] + spelling(ret);
        assert(s.take(4) =~= seq!['a', 'm', 'y', '_']);
        assert(s.subrange(4, n + 4) =~= name);
        assert(s.skip(n + 5) =~= tail);
        let cut = list.len() as int;
        assert(tail.take(cut) =~= list);
        assert(tail.skip(cut + 1) =~= spelling(ret));
        assert(tail[cut] == ':');
    }
}

} // verus!
