//! The comment stripper: removes every line whose leading-whitespace-trimmed
//! content starts with `#`, keeping the remaining lines in order.

use vstd::prelude::*;
use vstd::string::StrSliceExecFns;
use vstd::string::StringExecFns;

use crate::text::find_char_from;
use crate::text::first_non_space;
use crate::text::trim_start_spec;

verus! {

/// The lines of `s`, as `str::lines` yields them: a line ending is
/// either `'\n'` or `"\r\n"` and is not part of the line, the final
/// line ending is optional, and an empty text has no lines at all.
pub open spec fn split_lines(s: Seq<char>) -> Seq<Seq<char>>
    decreases s.len(),
{
    if s.len() == 0 {
        Seq::empty()
    } else if s[0] == '\n' {
        seq![Seq::<char>::empty()] + split_lines(s.drop_first())
    } else if s[0] == '\r' && s.len() >= 2 && s[1] == '\n' {
        seq![Seq::<char>::empty()] + split_lines(s.skip(2))
    } else {
        let rest = split_lines(s.drop_first());
        if rest.len() == 0 {
            seq![seq![s[0]]]
        } else {
            seq![seq![s[0]] + rest[0]] + rest.drop_first()
        }
    }
}

/// Joins lines back into one text with `'\n'` separators.
pub open spec fn join_lines(lines: Seq<Seq<char>>) -> Seq<char>
    decreases lines.len(),
{
    if lines.len() == 0 {
        Seq::empty()
    } else if lines.len() == 1 {
        lines[0]
    } else {
        lines[0] + seq!['\n'] + join_lines(lines.drop_first())
    }
}

/// A line survives comment stripping when its leading-whitespace-trimmed
/// content does not start with `#`.
pub open spec fn line_kept(line: Seq<char>) -> bool {
    !(trim_start_spec(line).len() > 0 && trim_start_spec(line)[0] == '#')
}

/// [`line_kept`] as a predicate value, so that every `filter` call uses
/// one and the same function.
pub open spec fn kept_line_pred() -> spec_fn(Seq<char>) -> bool {
    |line: Seq<char>| line_kept(line)
}

/// The lines of `s` that survive comment stripping, in their original
/// order.
pub open spec fn kept_lines(s: Seq<char>) -> Seq<Seq<char>> {
    split_lines(s).filter(kept_line_pred())
}

/// What the comment stripper produces: the kept lines of `s`, joined
/// with `'\n'` separators.
pub open spec fn strip_comments(s: Seq<char>) -> Seq<char> {
    join_lines(kept_lines(s))
}

/// Every line of a split contains no newline character.
pub open spec fn newline_free(line: Seq<char>) -> bool {
    forall|k: int| 0 <= k < line.len() ==> line[k] != '\n'
}

/// A line whose last character is a carriage return.  Joined with
/// `'\n'`, such a line would end in a `"\r\n"` line ending, so a split
/// of the joined text does not give it back.
pub open spec fn ends_with_cr(line: Seq<char>) -> bool {
    line.len() > 0 && line.last() == '\r'
}

/// A nonempty text without a newline splits into exactly itself.
pub proof fn lemma_split_no_newline(s: Seq<char>)
    requires
        s.len() > 0,
        newline_free(s),
    ensures
        split_lines(s) == seq![s],
    decreases s.len(),
{
    if s.len() == 1 {
        assert(split_lines(s.drop_first()) =~= Seq::<Seq<char>>::empty());
        assert(seq![s[0]] =~= s);
        assert(split_lines(s) =~= seq![s]);
    } else {
        assert(newline_free(s.drop_first()));
        lemma_split_no_newline(s.drop_first());
        let rest = split_lines(s.drop_first());
        assert(rest[0] == s.drop_first());
        assert(seq![s[0]] + rest[0] =~= s);
        assert(split_lines(s) =~= seq![s]);
    }
}

/// The first line a text with a newline yields: the text before the
/// first `'\n'`, less a `'\r'` directly in front of it; the text after
/// the `'\n'` splits on its own.
pub proof fn lemma_split_at_newline(s: Seq<char>, e: int)
    requires
        0 <= e < s.len(),
        s[e] == '\n',
        forall|k: int| 0 <= k < e ==> s[k] != '\n',
    ensures
        split_lines(s) == seq![
            (if e > 0 && s[e - 1] == '\r' {
                s.take(e - 1)
            } else {
                s.take(e)
            }),
        ] + split_lines(s.skip(e + 1)),
    decreases e,
{
    let line = if e > 0 && s[e - 1] == '\r' {
        s.take(e - 1)
    } else {
        s.take(e)
    };
    if e == 0 {
        assert(s.take(0) =~= Seq::<char>::empty());
        assert(s.skip(1) =~= s.drop_first());
        assert(split_lines(s) =~= seq![line] + split_lines(s.skip(1)));
    } else if e == 1 && s[0] == '\r' {
        assert(s.take(0) =~= Seq::<char>::empty());
        assert(split_lines(s) =~= seq![line] + split_lines(s.skip(2)));
    } else {
        let d = s.drop_first();
        assert(d[e - 1] == '\n');
        assert(forall|k: int| 0 <= k < e - 1 ==> d[k] == s[k + 1] && d[k] != '\n');
        assert(!(s[0] == '\r' && s.len() >= 2 && s[1] == '\n'));
        lemma_split_at_newline(d, e - 1);
        let line_d = if e - 1 > 0 && d[e - 2] == '\r' {
            d.take(e - 2)
        } else {
            d.take(e - 1)
        };
        let rest = split_lines(d);
        assert(rest == seq![line_d] + split_lines(d.skip(e)));
        assert(rest.len() >= 1);
        assert(rest[0] == line_d);
        assert(rest.drop_first() =~= split_lines(d.skip(e)));
        if e == 1 {
            assert(seq![s[0]] + line_d =~= s.take(1));
        } else if d[e - 2] == '\r' {
            assert(d[e - 2] == s[e - 1]);
            assert(seq![s[0]] + d.take(e - 2) =~= s.take(e - 1));
        } else {
            assert(seq![s[0]] + d.take(e - 1) =~= s.take(e));
        }
        assert(d.skip(e) =~= s.skip(e + 1));
        assert(split_lines(s) =~= seq![line] + split_lines(s.skip(e + 1)));
    }
}

/// Appending one more line to a join appends a separator (unless the
/// join was empty so far) and the line.
pub proof fn lemma_join_push(lines: Seq<Seq<char>>, l: Seq<char>)
    ensures
        lines.len() == 0 ==> join_lines(lines.push(l)) == l,
        lines.len() > 0 ==> join_lines(lines.push(l)) == join_lines(lines) + seq!['\n'] + l,
    decreases lines.len(),
{
    let p = lines.push(l);
    if lines.len() == 0 {
        assert(p[0] == l);
    } else if lines.len() == 1 {
        assert(p[0] == lines[0]);
        assert(p.drop_first() =~= seq![l]);
        assert(join_lines(p.drop_first()) == l);
    } else {
        assert(p.drop_first() =~= lines.drop_first().push(l));
        lemma_join_push(lines.drop_first(), l);
        assert(p[0] == lines[0]);
        assert(lines[0] + seq!['\n'] + (join_lines(lines.drop_first()) + seq!['\n'] + l) =~= (
        lines[0] + seq!['\n'] + join_lines(lines.drop_first())) + seq!['\n'] + l);
    }
}

/// Filtering an empty sequence yields an empty sequence.
pub proof fn lemma_filter_empty(pred: spec_fn(Seq<char>) -> bool)
    ensures
        Seq::<Seq<char>>::empty().filter(pred) == Seq::<Seq<char>>::empty(),
{
    reveal(Seq::filter);
}

/// Filtering commutes with appending one element at the end.
pub proof fn lemma_filter_push(lines: Seq<Seq<char>>, l: Seq<char>, pred: spec_fn(Seq<char>) -> bool)
    ensures
        pred(l) ==> lines.push(l).filter(pred) == lines.filter(pred).push(l),
        !pred(l) ==> lines.push(l).filter(pred) == lines.filter(pred),
{
    reveal(Seq::filter);
    assert(lines.push(l).drop_last() =~= lines);
    assert(lines.push(l).last() == l);
}

/// Every line a split yields is free of newline characters.
pub proof fn lemma_split_lines_newline_free(s: Seq<char>)
    ensures
        forall|i: int| 0 <= i < split_lines(s).len() ==> newline_free(#[trigger] split_lines(s)[i]),
    decreases s.len(),
{
    if s.len() == 0 {
    } else if s[0] == '\n' {
        lemma_split_lines_newline_free(s.drop_first());
        let rest = split_lines(s.drop_first());
        assert(forall|i: int|
            1 <= i < split_lines(s).len() ==> #[trigger] split_lines(s)[i] == rest[i - 1]);
    } else if s[0] == '\r' && s.len() >= 2 && s[1] == '\n' {
        lemma_split_lines_newline_free(s.skip(2));
        let rest = split_lines(s.skip(2));
        assert(forall|i: int|
            1 <= i < split_lines(s).len() ==> #[trigger] split_lines(s)[i] == rest[i - 1]);
    } else {
        lemma_split_lines_newline_free(s.drop_first());
        let rest = split_lines(s.drop_first());
        if rest.len() == 0 {
            assert(newline_free(seq![s[0]]));
        } else {
            assert(newline_free(rest[0]));
            assert(newline_free(seq![s[0]] + rest[0]));
            assert(forall|i: int|
                1 <= i < split_lines(s).len() ==> #[trigger] split_lines(s)[i] == rest[i]);
        }
    }
}

/// Filtering keeps only elements of the original sequence, so it
/// preserves freedom from newlines.
pub proof fn lemma_filter_preserves_newline_free(
    lines: Seq<Seq<char>>,
    pred: spec_fn(Seq<char>) -> bool,
)
    requires
        forall|i: int| 0 <= i < lines.len() ==> newline_free(#[trigger] lines[i]),
    ensures
        forall|i: int|
            0 <= i < lines.filter(pred).len() ==> newline_free(#[trigger] lines.filter(pred)[i]),
    decreases lines.len(),
{
    reveal(Seq::filter);
    if lines.len() > 0 {
        let head = lines.drop_last();
        assert(forall|i: int| 0 <= i < head.len() ==> #[trigger] head[i] == lines[i]);
        lemma_filter_preserves_newline_free(head, pred);
        let sub = head.filter(pred);
        if pred(lines.last()) {
            assert(forall|i: int|
                0 <= i < sub.len() ==> #[trigger] sub.push(lines.last())[i] == sub[i]);
            assert(newline_free(sub.push(lines.last()).last()));
        }
    }
}

/// Splitting undoes joining, provided every joined line is free of
/// newlines and there is at least one line.
pub proof fn lemma_split_of_join(lines: Seq<Seq<char>>)
    requires
        lines.len() >= 1,
        forall|i: int| 0 <= i < lines.len() ==> newline_free(#[trigger] lines[i]),
        forall|i: int| 0 <= i < lines.len() - 1 ==> !ends_with_cr(#[trigger] lines[i]),
        lines.last().len() > 0,
    ensures
        split_lines(join_lines(lines)) == lines,
    decreases lines.len(),
{
    if lines.len() == 1 {
        lemma_split_no_newline(lines[0]);
        assert(seq![lines[0]] =~= lines);
    } else {
        let j = join_lines(lines);
        let head = lines[0];
        let tail = lines.drop_first();
        assert(j == head + seq!['\n'] + join_lines(tail));
        assert(j[head.len() as int] == '\n');
        assert(forall|k: int| 0 <= k < head.len() ==> #[trigger] j[k] == head[k] && j[k] != '\n');
        if head.len() > 0 {
            assert(!ends_with_cr(head));
            assert(j[head.len() - 1] == head.last());
        }
        lemma_split_at_newline(j, head.len() as int);
        assert(j.take(head.len() as int) =~= head);
        assert(j.skip(head.len() as int + 1) =~= join_lines(tail));
        assert(forall|i: int| 0 <= i < tail.len() ==> #[trigger] tail[i] == lines[i + 1]);
        lemma_split_of_join(tail);
        assert(seq![head] + tail =~= lines);
    }
}

/// The law of the comment stripper: a line whose trimmed content starts
/// with `#` is absent from the output, and the remaining lines keep
/// their relative order — the lines of the stripped text are exactly
/// the kept lines of the input.
///
/// Rejoining with single `'\n'` separators cannot represent two kept
/// lines that an empty final line or a `"\r\n"` line ending would give
/// back differently, so the law asks that no kept line but the last end
/// with a carriage return and that a last kept line be nonempty.
pub proof fn lemma_comment_lines_removed(s: Seq<char>)
    requires
        forall|i: int| 0 <= i < kept_lines(s).len() - 1 ==> !ends_with_cr(#[trigger] kept_lines(s)[i]),
        kept_lines(s).len() > 0 ==> kept_lines(s).last().len() > 0,
    ensures
        split_lines(strip_comments(s)) == kept_lines(s),
{
    lemma_split_lines_newline_free(s);
    lemma_filter_preserves_newline_free(split_lines(s), kept_line_pred());
    if kept_lines(s).len() > 0 {
        lemma_split_of_join(kept_lines(s));
    }
}

/// Removes every comment line from `input`: the result consists of the
/// lines whose leading-whitespace-trimmed content does not start with
/// `#`, in their original order, joined with `'\n'` separators.
pub fn clean_up_comments(input: &str) -> (r: String)
    ensures
        r@ == strip_comments(input@),
{
    let n = input.unicode_len();
    let mut out = String::new();
    let mut any = false;
    let mut pos: usize = 0;
    let mut finished = false;
    let ghost mut done: Seq<Seq<char>> = Seq::empty();
    proof {
        assert(input@.skip(0) =~= input@);
        assert(done + split_lines(input@) =~= split_lines(input@));
        lemma_filter_empty(kept_line_pred());
    }
    while !finished
        invariant
            n == input@.len(),
            0 <= pos <= n,
            !finished ==> split_lines(input@) == done + split_lines(input@.skip(pos as int)),
            finished ==> done == split_lines(input@),
            out@ == join_lines(done.filter(kept_line_pred())),
            any == (done.filter(kept_line_pred()).len() > 0),
        decreases (if finished { 0int } else { 1int }), n - pos,
    {
        if pos == n {
            proof {
                assert(input@.skip(pos as int) =~= Seq::<char>::empty());
                assert(done + split_lines(input@.skip(pos as int)) =~= done);
            }
            finished = true;
        } else {
            let nl = find_char_from(input, pos, '\n');
            let end = match nl {
                Some(e) => e,
                None => n,
            };
            let line_end = match nl {
                Some(e) => {
                    if e > pos && input.get_char(e - 1) == '\r' {
                        e - 1
                    } else {
                        e
                    }
                },
                None => n,
            };
            let line = input.substring_char(pos, line_end);
            proof {
                let t = input@.skip(pos as int);
                assert(forall|k: int|
                    0 <= k < end - pos ==> #[trigger] t[k] == input@[k + pos] && t[k] != '\n');
                match nl {
                    Some(e) => {
                        assert(t[e - pos] == '\n');
                        lemma_split_at_newline(t, e - pos);
                        if e > pos && input@[e as int - 1] == '\r' {
                            assert(t[e - pos - 1] == '\r');
                            assert(t.take(e - pos - 1) =~= line@);
                        } else {
                            assert(t.take(e - pos) =~= line@);
                        }
                        assert(t.skip(e - pos + 1) =~= input@.skip(e + 1));
                    },
                    None => {
                        assert(t.len() > 0);
                        assert(newline_free(t));
                        lemma_split_no_newline(t);
                        assert(t =~= line@);
                    },
                }
            }
            if line_kept_exec(line) {
                if any {
                    out.append("\n");
                }
                out.append(line);
                any = true;
                proof {
                    reveal_strlit("\n");
                    assert("\n"@ =~= seq!['\n']);
                }
            }
            proof {
                lemma_filter_push(done, line@, kept_line_pred());
                lemma_join_push(done.filter(kept_line_pred()), line@);
                let done2 = done.push(line@);
                match nl {
                    Some(e) => {
                        assert(done + split_lines(input@.skip(pos as int)) =~= done2 + split_lines(
                            input@.skip(e + 1),
                        ));
                    },
                    None => {
                        assert(done + split_lines(input@.skip(pos as int)) =~= done2);
                    },
                }
                done = done2;
            }
            match nl {
                Some(e) => {
                    pos = e + 1;
                },
                None => {
                    finished = true;
                },
            }
        }
    }
    out
}

/// Executable test matching [`line_kept`].
pub fn line_kept_exec(line: &str) -> (b: bool)
    ensures
        b == line_kept(line@),
{
    let n = line.unicode_len();
    let i = first_non_space(line);
    if i < n {
        proof {
            assert(trim_start_spec(line@)[0] == line@[i as int]);
        }
        line.get_char(i) != '#'
    } else {
        true
    }
}

} // verus!
