//! The symbols under which functions appear in an object file.

use vstd::prelude::*;
use vstd::string::StringExecFns;

use crate::ast::Type;
use crate::generator::Generator;
use crate::text::{decimal, digit, push_decimal, same_text};

verus! {

/// Whether a type can be spelled in a symbol.
pub open spec fn spellable(t: Type<'_>) -> bool
    decreases t,
{
    match t {
        Type::Int(_, _) | Type::F32 | Type::F64 => true,
        Type::Tuple(v) => v@.len() == 0,
        Type::Pointer(_, t) | Type::Slice(_, t) => spellable(*t),
        Type::Function(a, r) => all_spellable(a@) && spellable(*r),
        Type::Struct(_, _) | Type::Generic(_) => false,
    }
}

/// Whether every one of some types can be spelled in a symbol.
pub open spec fn all_spellable(ts: Seq<Type<'_>>) -> bool
    decreases ts,
{
    ts.len() != 0 ==> spellable(ts[0]) && all_spellable(ts.drop_first())
}

/// How a type is spelled in a symbol.
pub open spec fn spelling(t: Type<'_>) -> Seq<char>
    decreases t,
{
    match t {
        Type::Int(false, width) => seq!['u'] + decimal(width as nat),
        Type::Int(true, width) => seq!['i'] + decimal(width as nat),
        Type::F32 => seq!['f'],
        Type::F64 => seq!['F'],
        Type::Tuple(_) => seq!['N'],
        Type::Pointer(false, t) => seq!['p'] + spelling(*t),
        Type::Pointer(true, t) => seq!['P'] + spelling(*t),
        Type::Slice(false, t) => seq!['s'] + spelling(*t),
        Type::Slice(true, t) => seq!['S'] + spelling(*t),
        Type::Function(a, r) => seq!['U'] + list_spelling(a@) + seq![':'] + spelling(*r),
        Type::Struct(_, _) | Type::Generic(_) => seq![],
    }
}

/// How some types are spelled in a symbol: with commas between them.
pub open spec fn list_spelling(ts: Seq<Type<'_>>) -> Seq<char>
    decreases ts, 1nat,
{
    if ts.len() == 0 {
        seq![]
    } else {
        spelling(ts[0]) + rest_spelling(ts.drop_first())
    }
}

/// How the types that follow another one are spelled: with a comma before each.
pub open spec fn rest_spelling(ts: Seq<Type<'_>>) -> Seq<char>
    decreases ts, 0nat,
{
    if ts.len() == 0 {
        seq![]
    } else {
        seq![','] + spelling(ts[0]) + rest_spelling(ts.drop_first())
    }
}

/// The symbol of a function: `main` stands for itself, every other function is
/// told apart by its name, its parameters and what it returns.
pub open spec fn symbol(name: Seq<char>, args: Seq<Type<'_>>, ret: Type<'_>) -> Seq<char> {
    if name == "main"@ {
        "main"@
    } else {
        "amy_"@ + name + seq!['@'] + list_spelling(args) + seq![':'] + spelling(ret)
    }
}

/// Whether a function has a symbol.
pub open spec fn has_symbol(name: Seq<char>, args: Seq<Type<'_>>, ret: Type<'_>) -> bool {
    name == "main"@ || all_spellable(args) && spellable(ret)
}

/// The types behind some references.
pub open spec fn targets<'b>(ts: Seq<&Type<'b>>) -> Seq<Type<'b>> {
    Seq::new(ts.len(), |i: int| *ts[i])
}

impl Generator {
    /// Appends the spelling of a type.
    pub fn mangle_type(mangled: &mut String, t: &Type<'_>)
        requires
            spellable(*t),
        ensures
            final(mangled)@ == old(mangled)@ + spelling(*t),
        decreases t,
    {
        match t {
            Type::Int(false, width) => {
                mangled.push('u');
                push_decimal(mangled, *width as usize);
            },
            Type::Int(true, width) => {
                mangled.push('i');
                push_decimal(mangled, *width as usize);
            },
            Type::F32 => mangled.push('f'),
            Type::F64 => mangled.push('F'),
            Type::Tuple(_) => mangled.push('N'),
            Type::Pointer(false, v) => {
                mangled.push('p');
                Self::mangle_type(mangled, &**v);
            },
            Type::Pointer(true, v) => {
                mangled.push('P');
                Self::mangle_type(mangled, &**v);
            },
            Type::Slice(false, v) => {
                mangled.push('s');
                Self::mangle_type(mangled, &**v);
            },
            Type::Slice(true, v) => {
                mangled.push('S');
                Self::mangle_type(mangled, &**v);
            },
            Type::Struct(_, _) => {},
            Type::Function(a, r) => {
                mangled.push('U');
                Self::mangle_types(mangled, a);
                mangled.push(':');
                Self::mangle_type(mangled, &**r);
            },
            Type::Generic(_) => {},
        }
        assert(mangled@ =~= old(mangled)@ + spelling(*t));
    }

    /// Appends the spelling of some types.
    fn mangle_types(mangled: &mut String, ts: &Vec<Type<'_>>)
        requires
            all_spellable(ts@),
        ensures
            final(mangled)@ == old(mangled)@ + list_spelling(ts@),
        decreases ts,
    {
        let ghost start = mangled@;
        let mut i: usize = 0;
        assert(ts@.skip(0) =~= ts@);
        while i < ts.len()
            invariant
                i <= ts.len(),
                all_spellable(ts@.skip(i as int)),
                i == 0 ==> mangled@ == start,
                i > 0 ==> mangled@ + rest_spelling(ts@.skip(i as int)) == start + list_spelling(ts@),
            decreases ts.len() - i,
        {
            proof {
                lemma_skip(ts@, i as int);
            }
            if i != 0 {
                mangled.push(',');
            }
            Self::mangle_type(mangled, &ts[i]);
            i += 1;
            assert(mangled@ + rest_spelling(ts@.skip(i as int)) =~= start + list_spelling(ts@));
        }
        assert(mangled@ =~= start + list_spelling(ts@));
    }

    /// The symbol of a function.
    pub fn mangle_func<'b>(name: &str, args: &Vec<&Type<'b>>, ret: &Type<'b>) -> (r: String)
        requires
            has_symbol(name@, targets(args@), *ret),
        ensures
            r@ == symbol(name@, targets(args@), *ret),
    {
        if same_text(name, "main") {
            return "main".to_owned();
        }
        let mut mangled: String = "amy_".to_owned();
        mangled.append(name);
        mangled.push('@');
        let ghost ts = targets(args@);
        let ghost start = mangled@;
        let mut i: usize = 0;
        assert(ts.skip(0) =~= ts);
        while i < args.len()
            invariant
                i <= args.len(),
                ts == targets(args@),
                all_spellable(ts.skip(i as int)),
                i == 0 ==> mangled@ == start,
                i > 0 ==> mangled@ + rest_spelling(ts.skip(i as int)) == start + list_spelling(ts),
            decreases args.len() - i,
        {
            proof {
                lemma_skip(ts, i as int);
            }
            if i != 0 {
                mangled.push(',');
            }
            Self::mangle_type(&mut mangled, args[i]);
            i += 1;
            assert(mangled@ + rest_spelling(ts.skip(i as int)) =~= start + list_spelling(ts));
        }
        assert(mangled@ =~= start + list_spelling(ts));
        mangled.push(':');
        Self::mangle_type(&mut mangled, ret);
        assert(mangled@ =~= symbol(name@, ts, *ret));
        mangled
    }
}

proof fn lemma_skip<T>(s: Seq<T>, i: int)
    requires
        0 <= i < s.len(),
    ensures
        s.skip(i)[0] == s[i],
        s.skip(i).drop_first() == s.skip(i + 1),
        s.skip(0) == s,
{
    assert(s.skip(i).drop_first() =~= s.skip(i + 1));
    assert(s.skip(0) =~= s);
}

/// Whether two types are built alike from the same parts.
pub open spec fn alike(a: Type<'_>, b: Type<'_>) -> bool
    decreases a,
{
    match (a, b) {
        (Type::Int(s, v), Type::Int(t, w)) => s == t && v == w,
        (Type::F32, Type::F32) => true,
        (Type::F64, Type::F64) => true,
        (Type::Tuple(v), Type::Tuple(w)) => all_alike(v@, w@),
        (Type::Pointer(m, t), Type::Pointer(n, u)) => m == n && alike(*t, *u),
        (Type::Slice(m, t), Type::Slice(n, u)) => m == n && alike(*t, *u),
        (Type::Struct(m, v), Type::Struct(n, w)) => m@ == n@ && all_alike(v@, w@),
        (Type::Function(v, r), Type::Function(w, s)) => all_alike(v@, w@) && alike(*r, *s),
        (Type::Generic(m), Type::Generic(n)) => m@ == n@,
        _ => false,
    }
}

/// Whether two lists of types are as long as each other and alike in every place.
pub open spec fn all_alike(a: Seq<Type<'_>>, b: Seq<Type<'_>>) -> bool
    decreases a,
{
    if a.len() == 0 {
        b.len() == 0
    } else {
        b.len() != 0 && alike(a[0], b[0]) && all_alike(a.drop_first(), b.drop_first())
    }
}

spec fn is_digit(c: char) -> bool {
    '0' <= c <= '9'
}

/// What can follow a type in a symbol.
spec fn closed(s: Seq<char>) -> bool {
    s.len() == 0 || s[0] == ',' || s[0] == ':'
}

proof fn lemma_digit(n: nat)
    requires
        n < 10,
    ensures
        is_digit(digit(n)),
        digit(n) as nat == '0' as nat + n,
{
}

proof fn lemma_decimal(n: nat)
    ensures
        decimal(n).len() > 0,
        forall|i: int| 0 <= i < decimal(n).len() ==> is_digit(#[trigger] decimal(n)[i]),
    decreases n,
{
    lemma_digit(n % 10);
    if n >= 10 {
        lemma_decimal(n / 10);
    }
}

/// Decimals that are the same stand for the same number.
proof fn lemma_decimal_injective(a: nat, b: nat)
    requires
        decimal(a) == decimal(b),
    ensures
        a == b,
    decreases a,
{
    lemma_digit(a % 10);
    lemma_digit(b % 10);
    lemma_decimal(a / 10);
    lemma_decimal(b / 10);
    assert(decimal(a).last() == digit(a % 10));
    assert(decimal(b).last() == digit(b % 10));
    if a >= 10 && b >= 10 {
        assert(decimal(a).drop_last() =~= decimal(a / 10));
        assert(decimal(b).drop_last() =~= decimal(b / 10));
        lemma_decimal_injective(a / 10, b / 10);
    }
}

/// A number ends where its digits end.
proof fn lemma_number(a: nat, b: nat, x: Seq<char>, y: Seq<char>)
    requires
        decimal(a) + x == decimal(b) + y,
        closed(x),
        closed(y),
    ensures
        a == b,
        x == y,
{
    let (s, t) = (decimal(a), decimal(b));
    lemma_decimal(a);
    lemma_decimal(b);
    if s.len() < t.len() {
        assert((s + x)[s.len() as int] == x[0]);
        assert((t + y)[s.len() as int] == t[s.len() as int]);
    } else if t.len() < s.len() {
        assert((t + y)[t.len() as int] == y[0]);
        assert((s + x)[t.len() as int] == s[t.len() as int]);
    }
    assert(s =~= (s + x).take(s.len() as int));
    assert(t =~= (t + y).take(t.len() as int));
    lemma_decimal_injective(a, b);
    assert(x =~= (s + x).skip(s.len() as int));
    assert(y =~= (t + y).skip(t.len() as int));
}

/// The letter that a spelling begins with.
spec fn letter(t: Type<'_>) -> char {
    match t {
        Type::Int(signed, _) => if signed {
            'i'
        } else {
            'u'
        },
        Type::F32 => 'f',
        Type::F64 => 'F',
        Type::Tuple(_) => 'N',
        Type::Pointer(mutable, _) => if mutable {
            'P'
        } else {
            'p'
        },
        Type::Slice(mutable, _) => if mutable {
            'S'
        } else {
            's'
        },
        Type::Function(_, _) => 'U',
        Type::Struct(_, _) | Type::Generic(_) => ':',
    }
}

proof fn lemma_first(t: Type<'_>)
    requires
        spellable(t),
    ensures
        spelling(t).len() > 0,
        spelling(t)[0] == letter(t),
        letter(t) != ':',
        letter(t) != ',',
{
}

/// A spelling ends where its type ends, and stands for one type.
#[verifier::rlimit(40)]
proof fn lemma_spelling(t: Type<'_>, u: Type<'_>, x: Seq<char>, y: Seq<char>)
    requires
        spellable(t),
        spellable(u),
        spelling(t) + x == spelling(u) + y,
        closed(x),
        closed(y),
    ensures
        alike(t, u),
        x == y,
    decreases t,
{
    let (s, v) = (spelling(t) + x, spelling(u) + y);
    lemma_first(t);
    lemma_first(u);
    assert(s[0] == letter(t));
    assert(v[0] == letter(u));
    assert(letter(t) == letter(u));
    match (t, u) {
        (Type::Int(_, a), Type::Int(_, b)) => {
            assert(s.drop_first() =~= decimal(a as nat) + x);
            assert(v.drop_first() =~= decimal(b as nat) + y);
            lemma_number(a as nat, b as nat, x, y);
        },
        (Type::Pointer(_, a), Type::Pointer(_, b)) => {
            assert(s.drop_first() =~= spelling(*a) + x);
            assert(v.drop_first() =~= spelling(*b) + y);
            lemma_spelling(*a, *b, x, y);
        },
        (Type::Slice(_, a), Type::Slice(_, b)) => {
            assert(s.drop_first() =~= spelling(*a) + x);
            assert(v.drop_first() =~= spelling(*b) + y);
            lemma_spelling(*a, *b, x, y);
        },
        (Type::Function(a, q), Type::Function(b, r)) => {
            assert(s.drop_first() =~= list_spelling(a@) + seq![':'] + (spelling(*q) + x));
            assert(v.drop_first() =~= list_spelling(b@) + seq![':'] + (spelling(*r) + y));
            lemma_list(a@, b@, spelling(*q) + x, spelling(*r) + y);
            lemma_spelling(*q, *r, x, y);
            assert(alike(t, u));
        },
        (Type::Tuple(a), Type::Tuple(b)) => {
            assert(all_alike(a@, b@));
            assert(s.drop_first() =~= x);
            assert(v.drop_first() =~= y);
        },
        (Type::F32, Type::F32) | (Type::F64, Type::F64) => {
            assert(s.drop_first() =~= x);
            assert(v.drop_first() =~= y);
        },
        _ => {
            assert(false);
        },
    }
}

/// A list of spellings ends at its colon, and stands for one list of types.
proof fn lemma_list(a: Seq<Type<'_>>, b: Seq<Type<'_>>, x: Seq<char>, y: Seq<char>)
    requires
        all_spellable(a),
        all_spellable(b),
        list_spelling(a) + seq![':'] + x == list_spelling(b) + seq![':'] + y,
    ensures
        all_alike(a, b),
        x == y,
    decreases a, 1nat,
{
    let (s, v) = (list_spelling(a) + seq![':'] + x, list_spelling(b) + seq![':'] + y);
    if a.len() > 0 {
        lemma_first(a[0]);
        assert(s[0] == spelling(a[0])[0]);
    }
    if b.len() > 0 {
        lemma_first(b[0]);
        assert(v[0] == spelling(b[0])[0]);
    }
    if a.len() > 0 && b.len() > 0 {
        let p = rest_spelling(a.drop_first()) + seq![':'] + x;
        let q = rest_spelling(b.drop_first()) + seq![':'] + y;
        assert(s =~= spelling(a[0]) + p);
        assert(v =~= spelling(b[0]) + q);
        lemma_spelling(a[0], b[0], p, q);
        lemma_rest(a.drop_first(), b.drop_first(), x, y);
    } else if a.len() == 0 && b.len() == 0 {
        assert(s.drop_first() =~= x);
        assert(v.drop_first() =~= y);
    } else if a.len() == 0 {
        assert(s[0] == ':');
    } else {
        assert(v[0] == ':');
    }
}

proof fn lemma_rest(a: Seq<Type<'_>>, b: Seq<Type<'_>>, x: Seq<char>, y: Seq<char>)
    requires
        all_spellable(a),
        all_spellable(b),
        rest_spelling(a) + seq![':'] + x == rest_spelling(b) + seq![':'] + y,
    ensures
        all_alike(a, b),
        x == y,
    decreases a, 0nat,
{
    let (s, v) = (rest_spelling(a) + seq![':'] + x, rest_spelling(b) + seq![':'] + y);
    if a.len() > 0 && b.len() > 0 {
        let p = rest_spelling(a.drop_first()) + seq![':'] + x;
        let q = rest_spelling(b.drop_first()) + seq![':'] + y;
        assert(s.drop_first() =~= spelling(a[0]) + p);
        assert(v.drop_first() =~= spelling(b[0]) + q);
        lemma_spelling(a[0], b[0], p, q);
        lemma_rest(a.drop_first(), b.drop_first(), x, y);
    } else if a.len() == 0 && b.len() == 0 {
        assert(s.drop_first() =~= x);
        assert(v.drop_first() =~= y);
    } else if a.len() == 0 {
        assert(s[0] == ':');
        assert(v[0] == ',');
    } else {
        assert(v[0] == ':');
        assert(s[0] == ',');
    }
}

/// Types that are spelled alike are alike.
pub proof fn law_spelling_is_injective(t: Type<'_>, u: Type<'_>)
    requires
        spellable(t),
        spellable(u),
        spelling(t) == spelling(u),
    ensures
        alike(t, u),
{
    let e: Seq<char> = seq![];
    assert(spelling(t) + e =~= spelling(t));
    assert(spelling(u) + e =~= spelling(u));
    lemma_spelling(t, u, e, e);
}

proof fn lemma_alike_spelling(t: Type<'_>, u: Type<'_>)
    requires
        alike(t, u),
        spellable(t),
    ensures
        spellable(u),
        spelling(t) == spelling(u),
    decreases t,
{
    match (t, u) {
        (Type::Tuple(v), Type::Tuple(w)) => {
            assert(all_alike(v@, w@));
        },
        (Type::Pointer(_, t), Type::Pointer(_, u)) => lemma_alike_spelling(*t, *u),
        (Type::Slice(_, t), Type::Slice(_, u)) => lemma_alike_spelling(*t, *u),
        (Type::Function(v, r), Type::Function(w, s)) => {
            lemma_all_alike_spelling(v@, w@);
            lemma_alike_spelling(*r, *s);
        },
        _ => {},
    }
}

proof fn lemma_all_alike_spelling(a: Seq<Type<'_>>, b: Seq<Type<'_>>)
    requires
        all_alike(a, b),
        all_spellable(a),
    ensures
        all_spellable(b),
        list_spelling(a) == list_spelling(b),
        rest_spelling(a) == rest_spelling(b),
    decreases a,
{
    if a.len() > 0 {
        lemma_alike_spelling(a[0], b[0]);
        lemma_all_alike_spelling(a.drop_first(), b.drop_first());
    }
}

/// Functions of one name that take and return types that are alike share a
/// symbol.
pub proof fn law_symbols_are_stable(
    name: Seq<char>,
    a: Seq<Type<'_>>,
    q: Type<'_>,
    b: Seq<Type<'_>>,
    r: Type<'_>,
)
    requires
        has_symbol(name, a, q),
        all_alike(a, b),
        alike(q, r),
    ensures
        has_symbol(name, b, r),
        symbol(name, a, q) == symbol(name, b, r),
{
    if name != "main"@ {
        lemma_all_alike_spelling(a, b);
        lemma_alike_spelling(q, r);
    }
}

/// Whether a character never occurs in a text.
spec fn free_of(s: Seq<char>, c: char) -> bool {
    forall|i: int| 0 <= i < s.len() ==> s[i] != c
}

proof fn lemma_spelling_has_no_at(t: Type<'_>)
    ensures
        free_of(spelling(t), '@'),
    decreases t,
{
    match t {
        Type::Int(_, w) => {
            lemma_decimal(w as nat);
            let d = decimal(w as nat);
            assert forall|i: int| 0 <= i < spelling(t).len() implies spelling(t)[i] != '@' by {
                if i > 0 {
                    assert(is_digit(d[i - 1]));
                }
            }
        },
        Type::Pointer(_, a) | Type::Slice(_, a) => {
            lemma_spelling_has_no_at(*a);
        },
        Type::Function(a, r) => {
            lemma_list_has_no_at(a@);
            lemma_spelling_has_no_at(*r);
        },
        _ => {},
    }
}

proof fn lemma_list_has_no_at(ts: Seq<Type<'_>>)
    ensures
        free_of(list_spelling(ts), '@'),
        free_of(rest_spelling(ts), '@'),
    decreases ts,
{
    if ts.len() > 0 {
        lemma_spelling_has_no_at(ts[0]);
        lemma_list_has_no_at(ts.drop_first());
    }
}

/// Functions that share a symbol share their name, the types of their
/// parameters and the type that they return; `main` alone is told apart by its
/// name only.
pub proof fn law_symbols_are_distinct(
    m: Seq<char>,
    a: Seq<Type<'_>>,
    q: Type<'_>,
    n: Seq<char>,
    b: Seq<Type<'_>>,
    r: Type<'_>,
)
    requires
        has_symbol(m, a, q),
        has_symbol(n, b, r),
        symbol(m, a, q) == symbol(n, b, r),
    ensures
        m == n,
        m != "main"@ ==> all_alike(a, b) && alike(q, r),
{
    reveal_strlit("main");
    reveal_strlit("amy_");
    let (s, t) = (symbol(m, a, q), symbol(n, b, r));
    if m != "main"@ {
        assert(s[0] == 'a');
    }
    if n != "main"@ {
        assert(t[0] == 'a');
    }
    assert("main"@[0] == 'm');
    if m != "main"@ && n != "main"@ {
        let x = list_spelling(a) + seq![':'] + spelling(q);
        let y = list_spelling(b) + seq![':'] + spelling(r);
        lemma_list_has_no_at(a);
        lemma_spelling_has_no_at(q);
        lemma_list_has_no_at(b);
        lemma_spelling_has_no_at(r);
        assert(free_of(x, '@'));
        assert(free_of(y, '@'));
        assert(s =~= "amy_"@ + m + seq!['@'] + x);
        assert(t =~= "amy_"@ + n + seq!['@'] + y);
        let i = 4 + m.len() as int;
        let j = 4 + n.len() as int;
        assert(s[i] == '@');
        assert(t[j] == '@');
        if i < j {
            assert(s[j] == x[j - i - 1]);
        } else if j < i {
            assert(t[i] == y[i - j - 1]);
        }
        assert(m =~= s.subrange(4, i));
        assert(n =~= t.subrange(4, j));
        assert(x =~= s.skip(i + 1));
        assert(y =~= t.skip(j + 1));
        lemma_list(a, b, spelling(q), spelling(r));
        law_spelling_is_injective(q, r);
    }
}

} // verus!
