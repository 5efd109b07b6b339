use crate::error::ShellError;
use vstd::prelude::*;

verus! {

/// Characters that separate words outside quotes.
pub open spec fn is_blank(c: char) -> bool {
    c == ' ' || c == '\t' || c == '\n'
}

/// Characters that give a line quoting, escaping or comment structure.
pub open spec fn is_quoting(c: char) -> bool {
    c == '\'' || c == '"' || c == '\\' || c == '#'
}

/// A line in which no character quotes, escapes or starts a comment.
pub open spec fn no_quoting(s: Seq<char>) -> bool {
    forall|i: int| 0 <= i < s.len() ==> !#[trigger] is_quoting(s[i])
}

/// A word as plain splitting yields it: not empty, without blanks or quoting.
pub open spec fn plain_word(w: Seq<char>) -> bool {
    &&& w.len() > 0
    &&& forall|i: int| 0 <= i < w.len() ==> !is_blank(#[trigger] w[i]) && !is_quoting(w[i])
}

/// Splits `s` at blanks, `cur` being the part of a word already read.
pub open spec fn split_from(s: Seq<char>, cur: Seq<char>) -> Seq<Seq<char>>
    decreases s.len(),
{
    if s.len() == 0 {
        if cur.len() == 0 {
            seq![]
        } else {
            seq![cur]
        }
    } else if is_blank(s[0]) {
        if cur.len() == 0 {
            split_from(s.drop_first(), seq![])
        } else {
            seq![cur] + split_from(s.drop_first(), seq![])
        }
    } else {
        split_from(s.drop_first(), cur.push(s[0]))
    }
}

/// The maximal runs of non-blank characters of `s`, in order.
pub open spec fn words(s: Seq<char>) -> Seq<Seq<char>> {
    split_from(s, seq![])
}

/// The words separated by single spaces.
pub open spec fn join_words(ws: Seq<Seq<char>>) -> Seq<char>
    decreases ws.len(),
{
    if ws.len() == 0 {
        seq![]
    } else if ws.len() == 1 {
        ws[0]
    } else {
        ws[0] + seq![' '] + join_words(ws.drop_first())
    }
}

/// What shlex's splitting makes of a line: its words, or `None` where the quoting is unbalanced.
pub uninterp spec fn shlex_split_of(line: Seq<char>) -> Option<Seq<Seq<char>>>;

/// The character sequences of a sequence of strings.
pub open spec fn views_of(ts: Seq<String>) -> Seq<Seq<char>> {
    Seq::new(ts.len(), |i: int| ts[i]@)
}

/// The tokens of a split, as character sequences.
pub open spec fn split_view(r: Option<Vec<String>>) -> Option<Seq<Seq<char>>> {
    match r {
        Some(v) => Some(views_of(v@)),
        None => None,
    }
}

/// Relies on shlex::split: its result depends on the line alone; on a line without
/// quotes, backslashes or `#` it returns the runs of characters other than space,
/// tab and newline.
#[verifier::external_body]
fn shlex_split(line: &str) -> (r: Option<Vec<String>>)
    ensures
        split_view(r) == shlex_split_of(line@),
        no_quoting(line@) ==> split_view(r) == Some(words(line@)),
{
    shlex::split(line)
}

/// Splits an input line into tokens with shell-style quoting.
pub fn tokenize(line: &str) -> (r: Result<Vec<String>, ShellError>)
    ensures
        match shlex_split_of(line@) {
            Some(ts) => r is Ok && views_of(r->Ok_0@) == ts,
            None => r is Err && r->Err_0 is MalformedInput,
        },
        no_quoting(line@) ==> r is Ok && views_of(r->Ok_0@) == words(line@),
{
    match shlex_split(line) {
        Some(ts) => Ok(ts),
        None => Err(ShellError::MalformedInput),
    }
}

/// Joining one more word appends a space and the word.
pub proof fn lemma_join_push(ws: Seq<Seq<char>>, w: Seq<char>)
    ensures
        join_words(ws.push(w)) == if ws.len() == 0 {
            w
        } else {
            join_words(ws) + seq![' '] + w
        },
    decreases ws.len(),
{
    if ws.len() == 0 {
        assert(ws.push(w) =~= seq![w]);
    } else if ws.len() == 1 {
        assert(ws.push(w).drop_first() =~= seq![w]);
        assert(join_words(seq![w]) == w);
        assert(ws.push(w)[0] == ws[0]);
    } else {
        let v = ws.push(w);
        assert(v.drop_first() =~= ws.drop_first().push(w));
        assert(v[0] == ws[0]);
        lemma_join_push(ws.drop_first(), w);
        assert(join_words(v) == v[0] + seq![' '] + join_words(v.drop_first()));
        assert(join_words(ws) == ws[0] + seq![' '] + join_words(ws.drop_first()));
        assert(join_words(v) =~= join_words(ws) + seq![' '] + w);
    }
}

proof fn lemma_split_absorbs_word(w: Seq<char>, t: Seq<char>, cur: Seq<char>)
    requires
        forall|i: int| 0 <= i < w.len() ==> !#[trigger] is_blank(w[i]),
    ensures
        split_from(w + t, cur) == split_from(t, cur + w),
    decreases w.len(),
{
    if w.len() == 0 {
        assert(w + t =~= t);
        assert(cur + w =~= cur);
    } else {
        assert((w + t)[0] == w[0]);
        assert((w + t).drop_first() =~= w.drop_first() + t);
        lemma_split_absorbs_word(w.drop_first(), t, cur.push(w[0]));
        assert(cur.push(w[0]) + w.drop_first() =~= cur + w);
    }
}

proof fn lemma_split_of_join(ws: Seq<Seq<char>>)
    requires
        forall|k: int| 0 <= k < ws.len() ==> plain_word(#[trigger] ws[k]),
    ensures
        words(join_words(ws)) == ws,
    decreases ws.len(),
{
    let e: Seq<char> = seq![];
    if ws.len() == 0 {
    } else if ws.len() == 1 {
        assert(plain_word(ws[0]));
        lemma_split_absorbs_word(ws[0], e, e);
        assert(ws[0] + e =~= ws[0]);
        assert(e + ws[0] =~= ws[0]);
        assert(seq![ws[0]] =~= ws);
    } else {
        let rest = ws.drop_first();
        let tail = seq![' '] + join_words(rest);
        assert(plain_word(ws[0]));
        assert(join_words(ws) =~= ws[0] + tail);
        lemma_split_absorbs_word(ws[0], tail, e);
        assert(e + ws[0] =~= ws[0]);
        assert(tail.drop_first() =~= join_words(rest));
        lemma_split_of_join(rest);
        assert(seq![ws[0]] + rest =~= ws);
    }
}

proof fn lemma_split_words_plain(s: Seq<char>, cur: Seq<char>)
    requires
        no_quoting(s),
        forall|i: int| 0 <= i < cur.len() ==> !is_blank(#[trigger] cur[i]) && !is_quoting(cur[i]),
    ensures
        forall|k: int| 0 <= k < split_from(s, cur).len() ==> plain_word(#[trigger] split_from(s, cur)[k]),
    decreases s.len(),
{
    if s.len() == 0 {
        if cur.len() > 0 {
            assert(plain_word(cur));
            assert(split_from(s, cur) == seq![cur]);
            assert(seq![cur][0] == cur);
        }
    } else {
        assert(!is_quoting(s[0]));
        assert(no_quoting(s.drop_first())) by {
            assert forall|i: int| 0 <= i < s.drop_first().len() implies !#[trigger] is_quoting(s.drop_first()[i]) by {
                assert(s.drop_first()[i] == s[i + 1]);
            }
        }
        if is_blank(s[0]) {
            let rest = split_from(s.drop_first(), seq![]);
            lemma_split_words_plain(s.drop_first(), seq![]);
            if cur.len() > 0 {
                assert(plain_word(cur));
                let all = seq![cur] + rest;
                assert(split_from(s, cur) == all);
                assert forall|k: int| 0 <= k < all.len() implies plain_word(#[trigger] all[k]) by {
                    if k > 0 {
                        assert(all[k] == rest[k - 1]);
                    }
                }
            }
        } else {
            let c2 = cur.push(s[0]);
            assert forall|i: int| 0 <= i < c2.len() implies !is_blank(#[trigger] c2[i]) && !is_quoting(c2[i]) by {
                if i < cur.len() {
                    assert(c2[i] == cur[i]);
                }
            }
            lemma_split_words_plain(s.drop_first(), c2);
            assert(split_from(s, cur) == split_from(s.drop_first(), c2));
        }
    }
}

proof fn lemma_join_no_quoting(ws: Seq<Seq<char>>)
    requires
        forall|k: int| 0 <= k < ws.len() ==> plain_word(#[trigger] ws[k]),
    ensures
        no_quoting(join_words(ws)),
    decreases ws.len(),
{
    if ws.len() == 0 {
    } else if ws.len() == 1 {
        assert(plain_word(ws[0]));
    } else {
        let rest = ws.drop_first();
        assert forall|k: int| 0 <= k < rest.len() implies plain_word(#[trigger] rest[k]) by {
            assert(rest[k] == ws[k + 1]);
        }
        lemma_join_no_quoting(rest);
        assert(plain_word(ws[0]));
        let j = join_words(ws);
        let a = ws[0] + seq![' '];
        assert(j =~= a + join_words(rest));
        assert forall|i: int| 0 <= i < j.len() implies !#[trigger] is_quoting(j[i]) by {
            if i < ws[0].len() {
                assert(j[i] == ws[0][i]);
                assert(!is_quoting(ws[0][i]));
            } else if i == ws[0].len() {
                assert(j[i] == ' ');
            } else {
                assert(j[i] == join_words(rest)[i - a.len()]);
                assert(!is_quoting(join_words(rest)[i - a.len()]));
            }
        }
    }
}

/// Re-splitting a line without quoting, once its tokens are joined with single
/// spaces, gives the same tokens again, and so the same number of them; by
/// `tokenize`'s contract both lines then tokenize to exactly these words.
pub proof fn lemma_rejoin_resplit(line: Seq<char>)
    requires
        no_quoting(line),
    ensures
        no_quoting(join_words(words(line))),
        words(join_words(words(line))) == words(line),
        words(join_words(words(line))).len() == words(line).len(),
{
    lemma_split_words_plain(line, seq![]);
    lemma_join_no_quoting(words(line));
    lemma_split_of_join(words(line));
}

} // verus!
