use crate::tokens::{join_words, lemma_join_push, views_of};
use vstd::prelude::*;

verus! {

/// The names of the commands implemented inside the interpreter.
pub open spec fn builtin_names() -> Seq<Seq<char>> {
    seq!["exit"@, "echo"@, "type"@, "pwd"@, "cd"@]
}

/// The built-in command names.
pub fn built_ins() -> (r: Vec<String>)
    ensures
        views_of(r@) == builtin_names(),
{
    let mut r: Vec<String> = Vec::new();
    r.push(String::from_str("exit"));
    r.push(String::from_str("echo"));
    r.push(String::from_str("type"));
    r.push(String::from_str("pwd"));
    r.push(String::from_str("cd"));
    assert(views_of(r@) =~= builtin_names());
    r
}

/// Whether `name` is a built-in command.
pub fn is_builtin(name: &String) -> (r: bool)
    ensures
        r == builtin_names().contains(name@),
{
    let names = built_ins();
    let mut i: usize = 0;
    while i < names.len()
        invariant
            i <= names@.len(),
            views_of(names@) == builtin_names(),
            forall|k: int| 0 <= k < i ==> builtin_names()[k] != name@,
        decreases names@.len() - i,
    {
        assert(views_of(names@)[i as int] == names@[i as int]@);
        if names[i] == *name {
            assert(builtin_names()[i as int] == name@);
            return true;
        }
        i = i + 1;
    }
    false
}

pub open spec fn is_digit(c: char) -> bool {
    '0' <= c && c <= '9'
}

pub open spec fn all_digits(s: Seq<char>) -> bool {
    &&& s.len() > 0
    &&& forall|i: int| 0 <= i < s.len() ==> is_digit(#[trigger] s[i])
}

/// The number that a sequence of decimal digits writes.
pub open spec fn digits_value(s: Seq<char>) -> int
    decreases s.len(),
{
    if s.len() == 0 {
        0
    } else {
        digits_value(s.drop_last()) * 10 + (s.last() as int - '0' as int)
    }
}

/// The integer that `s` writes in decimal, with an optional sign.
pub open spec fn decimal_value(s: Seq<char>) -> Option<int> {
    if s.len() > 0 && s[0] == '-' && all_digits(s.drop_first()) {
        Some(-digits_value(s.drop_first()))
    } else if s.len() > 0 && s[0] == '+' && all_digits(s.drop_first()) {
        Some(digits_value(s.drop_first()))
    } else if all_digits(s) {
        Some(digits_value(s))
    } else {
        None
    }
}

/// The exit code that an argument of `exit` names, if it writes an `i32`.
pub open spec fn exit_code_of(s: Seq<char>) -> Option<i32> {
    match decimal_value(s) {
        Some(v) => if i32::MIN <= v <= i32::MAX {
            Some(v as i32)
        } else {
            None
        },
        None => None,
    }
}

proof fn lemma_digits_prefix(s: Seq<char>, k: int)
    requires
        0 <= k <= s.len(),
        forall|i: int| 0 <= i < s.len() ==> is_digit(#[trigger] s[i]),
    ensures
        0 <= digits_value(s.take(k)) <= digits_value(s),
    decreases s.len(),
{
    if k == s.len() {
        assert(s.take(k) =~= s);
        if s.len() > 0 {
            let d = s.drop_last();
            assert forall|i: int| 0 <= i < d.len() implies is_digit(#[trigger] d[i]) by {
                assert(d[i] == s[i]);
            }
            lemma_digits_prefix(d, d.len() as int);
            assert(is_digit(s[s.len() - 1]));
        }
    } else {
        let d = s.drop_last();
        assert forall|i: int| 0 <= i < d.len() implies is_digit(#[trigger] d[i]) by {
            assert(d[i] == s[i]);
        }
        assert(d.take(k) =~= s.take(k));
        lemma_digits_prefix(d, k);
        lemma_digits_prefix(d, d.len() as int);
        assert(d.take(d.len() as int) =~= d);
        assert(is_digit(s[s.len() - 1]));
    }
}

/// Reads the argument of `exit` as a signed decimal `i32`.
pub fn parse_exit_code(arg: &String) -> (r: Option<i32>)
    ensures
        r == exit_code_of(arg@),
{
    let s = arg.as_str();
    assert(s@ == arg@);
    let n = s.unicode_len();
    if n == 0 {
        return None;
    }
    let first = s.get_char(0);
    let neg = first == '-';
    let start: usize = if first == '-' || first == '+' {
        1
    } else {
        0
    };
    let ghost body = s@.subrange(start as int, n as int);
    assert(start == 1 ==> body =~= s@.drop_first());
    assert(start == 0 ==> body =~= s@);
    if start == n {
        return None;
    }
    let mut acc: i64 = 0;
    let mut i: usize = start;
    while i < n
        invariant
            start <= i <= n,
            start <= 1,
            s@ == arg@,
            n == s@.len(),
            body == s@.subrange(start as int, n as int),
            start == 1 ==> body == s@.drop_first() && (s@[0] == '-' || s@[0] == '+'),
            start == 0 ==> body == s@ && s@[0] != '-' && s@[0] != '+',
            neg == (s@[0] == '-'),
            acc == digits_value(body.take(i - start)),
            0 <= acc <= 2147483648,
            forall|k: int| 0 <= k < i - start ==> is_digit(#[trigger] body[k]),
        decreases n - i,
    {
        let c = s.get_char(i);
        assert(c == body[i - start]);
        if !('0' <= c && c <= '9') {
            proof {
                assert(!is_digit(body[i - start]));
                if start == 1 {
                    assert(!is_digit(s@[0]));
                }
            }
            return None;
        }
        assert(body.take(i - start + 1).drop_last() =~= body.take(i - start));
        let d: i64 = (c as u32 - '0' as u32) as i64;
        acc = acc * 10 + d;
        assert(body.take(i - start + 1).last() == c);
        assert(acc == digits_value(body.take(i - start + 1)));
        if acc > 2147483648 {
            proof {
                if start == 1 {
                    assert(!is_digit(s@[0]));
                    assert(!all_digits(s@));
                }
                if all_digits(body) {
                    lemma_digits_prefix(body, i - start + 1);
                }
            }
            return None;
        }
        i = i + 1;
    }
    assert(body.take(n - start) =~= body);
    if neg {
        Some((0 - acc) as i32)
    } else if acc > 2147483647 {
        None
    } else {
        Some(acc as i32)
    }
}

/// The words of `args` separated by single spaces: what `echo` writes before its newline.
pub fn echo_line(args: &Vec<String>) -> (r: String)
    ensures
        r@ == join_words(views_of(args@)),
{
    let mut r = String::new();
    let mut i: usize = 0;
    while i < args.len()
        invariant
            i <= args@.len(),
            r@ == join_words(views_of(args@).take(i as int)),
        decreases args@.len() - i,
    {
        proof {
            lemma_join_push(views_of(args@).take(i as int), args@[i as int]@);
            assert(views_of(args@).take(i + 1) =~= views_of(args@).take(i as int).push(args@[i as int]@));
        }
        if i > 0 {
            proof {
                reveal_strlit(" ");
            }
            r.append(" ");
        }
        r.append(args[i].as_str());
        i = i + 1;
    }
    assert(views_of(args@).take(args@.len() as int) =~= views_of(args@));
    r
}

} // verus!
