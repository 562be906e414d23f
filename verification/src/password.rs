//! Password generator: draws a password of a requested length from the
//! enabled character classes, containing at least one character of each
//! enabled class.

use vstd::prelude::*;

use rand::seq::SliceRandom;

use crate::text::chars_to_string;

verus! {

/// The special characters the generator may draw.
pub open spec fn spec_specials() -> Seq<char> {
    seq![
        '!', '@', '#', '$', '%', '^', '&', '*', '(', ')', '_', '+', '-',
        '=', '[', ']', '{', '}', '|', ';', ':', ',', '.', '<', '>', '?',
    ]
}

/// The decimal digits.
pub open spec fn spec_numbers() -> Seq<char> {
    seq![
        '0', '1', '2', '3', '4', '5', '6', '7', '8', '9',
    ]
}

/// The lower-case letters.
pub open spec fn spec_lowers() -> Seq<char> {
    seq![
        'a', 'b', 'c', 'd', 'e', 'f', 'g', 'h', 'i', 'j', 'k', 'l', 'm',
        'n', 'o', 'p', 'q', 'r', 's', 't', 'u', 'v', 'w', 'x', 'y', 'z',
    ]
}

/// The upper-case letters.
pub open spec fn spec_uppers() -> Seq<char> {
    seq![
        'A', 'B', 'C', 'D', 'E', 'F', 'G', 'H', 'I', 'J', 'K', 'L', 'M',
        'N', 'O', 'P', 'Q', 'R', 'S', 'T', 'U', 'V', 'W', 'X', 'Y', 'Z',
    ]
}

/// The special class, in a fixed order.
fn specials() -> (v: Vec<char>)
    ensures
        v@ == spec_specials(),
{
    let mut v: Vec<char> = Vec::new();
    v.push('!');
    v.push('@');
    v.push('#');
    v.push('$');
    v.push('%');
    v.push('^');
    v.push('&');
    v.push('*');
    v.push('(');
    v.push(')');
    v.push('_');
    v.push('+');
    v.push('-');
    v.push('=');
    v.push('[');
    v.push(']');
    v.push('{');
    v.push('}');
    v.push('|');
    v.push(';');
    v.push(':');
    v.push(',');
    v.push('.');
    v.push('<');
    v.push('>');
    v.push('?');
    proof {
        assert(v@ =~= spec_specials());
    }
    v
}

/// The number class, in a fixed order.
fn numbers_class() -> (v: Vec<char>)
    ensures
        v@ == spec_numbers(),
{
    let mut v: Vec<char> = Vec::new();
    v.push('0');
    v.push('1');
    v.push('2');
    v.push('3');
    v.push('4');
    v.push('5');
    v.push('6');
    v.push('7');
    v.push('8');
    v.push('9');
    proof {
        assert(v@ =~= spec_numbers());
    }
    v
}

/// The lower class, in a fixed order.
fn lowers() -> (v: Vec<char>)
    ensures
        v@ == spec_lowers(),
{
    let mut v: Vec<char> = Vec::new();
    v.push('a');
    v.push('b');
    v.push('c');
    v.push('d');
    v.push('e');
    v.push('f');
    v.push('g');
    v.push('h');
    v.push('i');
    v.push('j');
    v.push('k');
    v.push('l');
    v.push('m');
    v.push('n');
    v.push('o');
    v.push('p');
    v.push('q');
    v.push('r');
    v.push('s');
    v.push('t');
    v.push('u');
    v.push('v');
    v.push('w');
    v.push('x');
    v.push('y');
    v.push('z');
    proof {
        assert(v@ =~= spec_lowers());
    }
    v
}

/// The upper class, in a fixed order.
fn uppers() -> (v: Vec<char>)
    ensures
        v@ == spec_uppers(),
{
    let mut v: Vec<char> = Vec::new();
    v.push('A');
    v.push('B');
    v.push('C');
    v.push('D');
    v.push('E');
    v.push('F');
    v.push('G');
    v.push('H');
    v.push('I');
    v.push('J');
    v.push('K');
    v.push('L');
    v.push('M');
    v.push('N');
    v.push('O');
    v.push('P');
    v.push('Q');
    v.push('R');
    v.push('S');
    v.push('T');
    v.push('U');
    v.push('V');
    v.push('W');
    v.push('X');
    v.push('Y');
    v.push('Z');
    proof {
        assert(v@ =~= spec_uppers());
    }
    v
}


/// How many character classes are enabled.
pub open spec fn class_count(lower: bool, upper: bool, special: bool, numbers: bool) -> int {
    (if lower {
        1int
    } else {
        0int
    }) + (if upper {
        1int
    } else {
        0int
    }) + (if special {
        1int
    } else {
        0int
    }) + (if numbers {
        1int
    } else {
        0int
    })
}

/// The pool of characters the enabled classes offer, in a fixed order.
pub open spec fn pool_spec(lower: bool, upper: bool, special: bool, numbers: bool) -> Seq<char> {
    (if special {
        spec_specials()
    } else {
        Seq::empty()
    }) + (if numbers {
        spec_numbers()
    } else {
        Seq::empty()
    }) + (if lower {
        spec_lowers()
    } else {
        Seq::empty()
    }) + (if upper {
        spec_uppers()
    } else {
        Seq::empty()
    })
}

/// Whether a character belongs to one of the enabled classes.
pub open spec fn allowed_char(
    c: char,
    lower: bool,
    upper: bool,
    special: bool,
    numbers: bool,
) -> bool {
    ||| (lower && spec_lowers().contains(c))
    ||| (upper && spec_uppers().contains(c))
    ||| (special && spec_specials().contains(c))
    ||| (numbers && spec_numbers().contains(c))
}

/// The failures of the generator.
#[derive(Clone, Copy, Debug, PartialEq, Eq, Structural)]
pub enum PasswordError {
    /// The requested length cannot hold one character of each enabled
    /// class.
    TooShort,
    /// No class is enabled, yet characters were requested.
    NoClasses,
}

/// Relies on rand's `SliceRandom::choose` with `rand::thread_rng`: it
/// returns `Some` of an element of the slice exactly when the slice is
/// non-empty.
#[verifier::external_body]
fn pick(chars: &Vec<char>) -> (r: Option<char>)
    ensures
        r is Some <==> chars@.len() > 0,
        r matches Some(c) ==> chars@.contains(c),
{
    let mut rng = rand::thread_rng();
    chars.as_slice().choose(&mut rng).copied()
}

/// Relies on rand's `SliceRandom::shuffle` with `rand::thread_rng`: it
/// permutes the slice in place, keeping exactly the same elements.
#[verifier::external_body]
fn shuffle_chars(v: &mut Vec<char>)
    ensures
        final(v)@.to_multiset() == old(v)@.to_multiset(),
        final(v)@.len() == old(v)@.len(),
{
    let mut rng = rand::thread_rng();
    v.shuffle(&mut rng);
}

proof fn lemma_concat_contains<T>(a: Seq<T>, b: Seq<T>, x: T)
    ensures
        (a + b).contains(x) <==> (a.contains(x) || b.contains(x)),
{
    if a.contains(x) {
        let i = choose|i: int| 0 <= i < a.len() && a[i] == x;
        assert((a + b)[i] == x);
    }
    if b.contains(x) {
        let i = choose|i: int| 0 <= i < b.len() && b[i] == x;
        assert((a + b)[a.len() + i] == x);
    }
    if (a + b).contains(x) {
        let i = choose|i: int| 0 <= i < (a + b).len() && (a + b)[i] == x;
        if i < a.len() {
            assert(a[i] == x);
        } else {
            assert(b[i - a.len()] == x);
        }
    }
}

proof fn lemma_pool_allowed(
    c: char,
    lower: bool,
    upper: bool,
    special: bool,
    numbers: bool,
)
    requires
        pool_spec(lower, upper, special, numbers).contains(c),
    ensures
        allowed_char(c, lower, upper, special, numbers),
{
    let sp = if special {
        spec_specials()
    } else {
        Seq::<char>::empty()
    };
    let nu = if numbers {
        spec_numbers()
    } else {
        Seq::<char>::empty()
    };
    let lo = if lower {
        spec_lowers()
    } else {
        Seq::<char>::empty()
    };
    let up = if upper {
        spec_uppers()
    } else {
        Seq::<char>::empty()
    };
    lemma_concat_contains(sp + nu + lo, up, c);
    lemma_concat_contains(sp + nu, lo, c);
    lemma_concat_contains(sp, nu, c);
}

/// Whether every character of the string belongs to an enabled class.
pub open spec fn all_allowed(
    s: Seq<char>,
    lower: bool,
    upper: bool,
    special: bool,
    numbers: bool,
) -> bool {
    forall|i: int| 0 <= i < s.len() ==> allowed_char(#[trigger] s[i], lower, upper, special, numbers)
}

/// Whether some character of the string belongs to the given class.
pub open spec fn has_class_member(s: Seq<char>, cls: Seq<char>) -> bool {
    exists|w: char| s.contains(w) && cls.contains(w)
}

proof fn lemma_push_keeps<T>(s: Seq<T>, x: T, y: T)
    requires
        s.contains(y),
    ensures
        s.push(x).contains(y),
{
    let i = choose|i: int| 0 <= i < s.len() && s[i] == y;
    assert(s.push(x)[i] == y);
}

proof fn lemma_push_keeps_witness(s: Seq<char>, c: char, cls: Seq<char>)
    requires
        has_class_member(s, cls),
    ensures
        has_class_member(s.push(c), cls),
{
    let w = choose|w: char| s.contains(w) && cls.contains(w);
    lemma_push_keeps(s, c, w);
    assert(s.push(c).contains(w) && cls.contains(w));
}

proof fn lemma_push_all_allowed(
    s: Seq<char>,
    c: char,
    lower: bool,
    upper: bool,
    special: bool,
    numbers: bool,
)
    requires
        all_allowed(s, lower, upper, special, numbers),
        allowed_char(c, lower, upper, special, numbers),
    ensures
        all_allowed(s.push(c), lower, upper, special, numbers),
{
    assert forall|i: int| 0 <= i < s.push(c).len() implies allowed_char(
        #[trigger] s.push(c)[i],
        lower,
        upper,
        special,
        numbers,
    ) by {
        if i < s.len() {
            assert(s.push(c)[i] == s[i]);
        } else {
            assert(s.push(c)[i] == c);
        }
    }
}

proof fn lemma_keep_all_witnesses(s: Seq<char>, c: char)
    ensures
        has_class_member(s, spec_specials()) ==> has_class_member(s.push(c), spec_specials()),
        has_class_member(s, spec_numbers()) ==> has_class_member(s.push(c), spec_numbers()),
        has_class_member(s, spec_lowers()) ==> has_class_member(s.push(c), spec_lowers()),
        has_class_member(s, spec_uppers()) ==> has_class_member(s.push(c), spec_uppers()),
{
    if has_class_member(s, spec_specials()) {
        lemma_push_keeps_witness(s, c, spec_specials());
    }
    if has_class_member(s, spec_numbers()) {
        lemma_push_keeps_witness(s, c, spec_numbers());
    }
    if has_class_member(s, spec_lowers()) {
        lemma_push_keeps_witness(s, c, spec_lowers());
    }
    if has_class_member(s, spec_uppers()) {
        lemma_push_keeps_witness(s, c, spec_uppers());
    }
}

/// Shuffles the drawn characters and builds the final string. The result
/// holds exactly the same characters, so membership facts carry over.
#[verifier::rlimit(60)]
fn finish_password(
    pw: Vec<char>,
    lower: bool,
    upper: bool,
    special: bool,
    numbers: bool,
) -> (out: String)
    requires
        all_allowed(pw@, lower, upper, special, numbers),
        special ==> has_class_member(pw@, spec_specials()),
        numbers ==> has_class_member(pw@, spec_numbers()),
        lower ==> has_class_member(pw@, spec_lowers()),
        upper ==> has_class_member(pw@, spec_uppers()),
    ensures
        out@.len() == pw@.len(),
        all_allowed(out@, lower, upper, special, numbers),
        special ==> has_class_member(out@, spec_specials()),
        numbers ==> has_class_member(out@, spec_numbers()),
        lower ==> has_class_member(out@, spec_lowers()),
        upper ==> has_class_member(out@, spec_uppers()),
{
    let mut pw = pw;
    let ghost before = pw@;
    shuffle_chars(&mut pw);
    proof {
        broadcast use vstd::seq_lib::group_to_multiset_ensures;

        assert forall|i: int| 0 <= i < pw@.len() implies allowed_char(
            #[trigger] pw@[i],
            lower,
            upper,
            special,
            numbers,
        ) by {
            assert(pw@.contains(pw@[i]));
            assert(before.to_multiset().count(pw@[i]) > 0);
            assert(before.contains(pw@[i]));
        }
        if special {
            let w = choose|w: char| before.contains(w) && spec_specials().contains(w);
            assert(pw@.to_multiset().count(w) > 0);
            assert(pw@.contains(w) && spec_specials().contains(w));
        }
        if numbers {
            let w = choose|w: char| before.contains(w) && spec_numbers().contains(w);
            assert(pw@.to_multiset().count(w) > 0);
            assert(pw@.contains(w) && spec_numbers().contains(w));
        }
        if lower {
            let w = choose|w: char| before.contains(w) && spec_lowers().contains(w);
            assert(pw@.to_multiset().count(w) > 0);
            assert(pw@.contains(w) && spec_lowers().contains(w));
        }
        if upper {
            let w = choose|w: char| before.contains(w) && spec_uppers().contains(w);
            assert(pw@.to_multiset().count(w) > 0);
            assert(pw@.contains(w) && spec_uppers().contains(w));
        }
    }
    let out = chars_to_string(&pw);
    proof {
        assert(out@ == pw@);
    }
    out
}

/// Generates a password of exactly the requested length, drawn from the
/// enabled character classes, with at least one character of each enabled
/// class. Fails when the length cannot hold one of each enabled class, or
/// when characters are requested and no class is enabled.
#[verifier::loop_isolation(false)]
pub fn generate_password(
    length: u8,
    lower: bool,
    upper: bool,
    special: bool,
    numbers: bool,
) -> (r: Result<String, PasswordError>)
    ensures
        r is Ok <==> (class_count(lower, upper, special, numbers) <= length && (class_count(
            lower,
            upper,
            special,
            numbers,
        ) > 0 || length == 0)),
        r matches Err(e) ==> e == (if class_count(lower, upper, special, numbers) > length {
            PasswordError::TooShort
        } else {
            PasswordError::NoClasses
        }),
        r matches Ok(s) ==> s@.len() == length as nat,
        r matches Ok(s) ==> all_allowed(s@, lower, upper, special, numbers),
        r matches Ok(s) ==> (special ==> has_class_member(s@, spec_specials())),
        r matches Ok(s) ==> (numbers ==> has_class_member(s@, spec_numbers())),
        r matches Ok(s) ==> (lower ==> has_class_member(s@, spec_lowers())),
        r matches Ok(s) ==> (upper ==> has_class_member(s@, spec_uppers())),
{
    let mut k: u8 = 0;
    if lower {
        k = k + 1;
    }
    if upper {
        k = k + 1;
    }
    if special {
        k = k + 1;
    }
    if numbers {
        k = k + 1;
    }
    proof {
        assert(k as int == class_count(lower, upper, special, numbers));
    }
    if k == 0 && length == 0 {
        let empty: Vec<char> = Vec::new();
        return Ok(chars_to_string(&empty));
    }
    if k == 0 {
        return Err(PasswordError::NoClasses);
    }
    if k > length {
        return Err(PasswordError::TooShort);
    }
    let mut pool: Vec<char> = Vec::new();
    let mut pw: Vec<char> = Vec::new();
    if special {
        let mut cls = specials();
        let picked = pick(&cls);
        let ghost pw0 = pw@;
        match picked {
            Some(c) => {
                pw.push(c);
                proof {
                    lemma_push_all_allowed(pw0, c, lower, upper, special, numbers);
                    lemma_keep_all_witnesses(pw0, c);
                    assert(pw@[pw0.len() as int] == c);
                    assert(pw@.contains(c));
                    assert(has_class_member(pw@, spec_specials()));
                }
            },
            None => {
                proof {
                    assert(false);
                }
            },
        }
        pool.append(&mut cls);
    }
    if numbers {
        let mut cls = numbers_class();
        let picked = pick(&cls);
        let ghost pw0 = pw@;
        match picked {
            Some(c) => {
                pw.push(c);
                proof {
                    lemma_push_all_allowed(pw0, c, lower, upper, special, numbers);
                    lemma_keep_all_witnesses(pw0, c);
                    assert(pw@[pw0.len() as int] == c);
                    assert(pw@.contains(c));
                    assert(has_class_member(pw@, spec_numbers()));
                }
            },
            None => {
                proof {
                    assert(false);
                }
            },
        }
        pool.append(&mut cls);
    }
    if lower {
        let mut cls = lowers();
        let picked = pick(&cls);
        let ghost pw0 = pw@;
        match picked {
            Some(c) => {
                pw.push(c);
                proof {
                    lemma_push_all_allowed(pw0, c, lower, upper, special, numbers);
                    lemma_keep_all_witnesses(pw0, c);
                    assert(pw@[pw0.len() as int] == c);
                    assert(pw@.contains(c));
                    assert(has_class_member(pw@, spec_lowers()));
                }
            },
            None => {
                proof {
                    assert(false);
                }
            },
        }
        pool.append(&mut cls);
    }
    if upper {
        let mut cls = uppers();
        let picked = pick(&cls);
        let ghost pw0 = pw@;
        match picked {
            Some(c) => {
                pw.push(c);
                proof {
                    lemma_push_all_allowed(pw0, c, lower, upper, special, numbers);
                    lemma_keep_all_witnesses(pw0, c);
                    assert(pw@[pw0.len() as int] == c);
                    assert(pw@.contains(c));
                    assert(has_class_member(pw@, spec_uppers()));
                }
            },
            None => {
                proof {
                    assert(false);
                }
            },
        }
        pool.append(&mut cls);
    }
    proof {
        assert(pool@ =~= pool_spec(lower, upper, special, numbers));
        assert(pw@.len() == k as nat);
    }
    while pw.len() < length as usize
        invariant
            pool@ == pool_spec(lower, upper, special, numbers),
            pool@.len() > 0,
            pw@.len() <= length as nat,
            all_allowed(pw@, lower, upper, special, numbers),
            special ==> has_class_member(pw@, spec_specials()),
            numbers ==> has_class_member(pw@, spec_numbers()),
            lower ==> has_class_member(pw@, spec_lowers()),
            upper ==> has_class_member(pw@, spec_uppers()),
        decreases length as int - pw@.len(),
    {
        let picked = pick(&pool);
        let ghost pw0 = pw@;
        match picked {
            Some(c) => {
                proof {
                    lemma_pool_allowed(c, lower, upper, special, numbers);
                }
                pw.push(c);
                proof {
                    lemma_push_all_allowed(pw0, c, lower, upper, special, numbers);
                    lemma_keep_all_witnesses(pw0, c);
                }
            },
            None => {
                proof {
                    assert(false);
                }
            },
        }
    }
    proof {
        assert(pw@.len() == length as nat);
    }
    let out = finish_password(pw, lower, upper, special, numbers);
    Ok(out)
}

} // verus!
