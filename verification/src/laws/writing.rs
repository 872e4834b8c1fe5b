//! What the building blocks do to texts: how a text falls into words and
//! lines, what becomes of its characters, and how texts are put together.

use vstd::prelude::*;

use crate::docs::{
    comment_lines, doc_comment, flattened, law_flattened_drops_only_blank, law_words, line_scan,
    lines, optional_doc_comment, trimmed_end, white_space, with_word, without_carriage_return,
    word_scan, words,
};
use crate::ident::{callable, field_key_text, RESERVED, reserved, sanitized};
use crate::text::{
    chained, concat, decimal, distinct, joined, lemma_distinct_contains, text_le,
};

verus! {

/// Putting texts together: one more text comes last, behind a separator if
/// there was one before it.
pub proof fn law_one_more_part(parts: Seq<Seq<char>>, sep: Seq<char>, last: Seq<char>)
    ensures
        concat(Seq::empty()) == Seq::<char>::empty(),
        concat(parts.push(last)) == concat(parts) + last,
        joined(Seq::empty(), sep) == Seq::<char>::empty(),
        joined(seq![last], sep) == last,
        parts.len() > 0 ==> joined(parts.push(last), sep) == joined(parts, sep) + sep + last,
{
    assert(parts.push(last).drop_last() =~= parts);
}

/// Putting lists together: one more list comes last.
pub proof fn law_one_more_list(lists: Seq<Seq<Seq<char>>>, last: Seq<Seq<char>>)
    ensures
        chained(Seq::empty()) == Seq::<Seq<char>>::empty(),
        chained(lists.push(last)) == chained(lists) + last,
{
    assert(lists.push(last).drop_last() =~= lists);
}

/// Taking repetitions out: one more item comes last, unless it was there.
pub proof fn law_one_more_item(list: Seq<Seq<char>>, item: Seq<char>)
    ensures
        distinct(Seq::empty()) == Seq::<Seq<char>>::empty(),
        list.contains(item) ==> distinct(list.push(item)) == distinct(list),
        !list.contains(item) ==> distinct(list.push(item)) == distinct(list).push(item),
{
    assert(list.push(item).drop_last() =~= list);
    lemma_distinct_contains(list, item);
}

/// Texts are ordered like words in a dictionary: a text comes before what it
/// is the beginning of, and else the first character in which two texts differ
/// decides.
pub proof fn law_dictionary_order(a: Seq<char>, b: Seq<char>)
    ensures
        text_le(a, b) <==> a.is_prefix_of(b) || exists|k: int|
            0 <= k < a.len() && k < b.len() && a.take(k) == b.take(k) && (#[trigger] a[k]) < b[k],
    decreases a.len(),
{
    if a.len() == 0 {
        assert(b.subrange(0, 0) =~= a);
    } else if b.len() > 0 {
        let x = a.drop_first();
        let y = b.drop_first();
        law_dictionary_order(x, y);
        if a[0] == b[0] {
            if x.is_prefix_of(y) {
                assert(a =~= b.subrange(0, a.len() as int)) by {
                    assert forall|i: int| 0 <= i < a.len() implies a[i] == b[i] by {
                        if i > 0 {
                            assert(x[i - 1] == y.subrange(0, x.len() as int)[i - 1]);
                        }
                    }
                }
            }
            if a.is_prefix_of(b) {
                assert(x =~= y.subrange(0, x.len() as int)) by {
                    assert forall|i: int| 0 <= i < x.len() implies x[i] == y[i] by {
                        assert(a[i + 1] == b.subrange(0, a.len() as int)[i + 1]);
                    }
                }
            }
            if exists|k: int|
                0 <= k < x.len() && k < y.len() && x.take(k) == y.take(k) && (#[trigger] x[k])
                    < y[k] {
                let k = choose|k: int|
                    0 <= k < x.len() && k < y.len() && x.take(k) == y.take(k) && (#[trigger] x[k])
                        < y[k];
                assert(a.take(k + 1) =~= b.take(k + 1)) by {
                    assert forall|i: int| 0 <= i < k + 1 implies a[i] == b[i] by {
                        if i > 0 {
                            assert(x.take(k)[i - 1] == y.take(k)[i - 1]);
                        }
                    }
                }
                assert(a[k + 1] < b[k + 1]);
            }
            if exists|k: int|
                0 <= k < a.len() && k < b.len() && a.take(k) == b.take(k) && (#[trigger] a[k])
                    < b[k] {
                let k = choose|k: int|
                    0 <= k < a.len() && k < b.len() && a.take(k) == b.take(k) && (#[trigger] a[k])
                        < b[k];
                assert(k > 0);
                assert(x.take(k - 1) =~= y.take(k - 1)) by {
                    assert forall|i: int| 0 <= i < k - 1 implies x[i] == y[i] by {
                        assert(a.take(k)[i + 1] == b.take(k)[i + 1]);
                    }
                }
                assert(x[k - 1] < y[k - 1]);
            }
        } else {
            if a[0] < b[0] {
                assert(a.take(0) =~= b.take(0));
            }
            if a.is_prefix_of(b) {
                assert(a[0] == b.subrange(0, a.len() as int)[0]);
            }
            if exists|k: int|
                0 <= k < a.len() && k < b.len() && a.take(k) == b.take(k) && (#[trigger] a[k])
                    < b[k] {
                let k = choose|k: int|
                    0 <= k < a.len() && k < b.len() && a.take(k) == b.take(k) && (#[trigger] a[k])
                        < b[k];
                if k > 0 {
                    assert(a.take(k)[0] == b.take(k)[0]);
                }
            }
        }
    }
}

/// Numbers are written in decimal: a digit as itself, and one more digit comes
/// last.
pub proof fn law_decimal(n: nat, d: nat, c: char)
    requires
        d < 10,
        c as nat == '0' as nat + d,
    ensures
        decimal(d) == seq![c],
        n > 0 ==> decimal(10 * n + d) == decimal(n).push(c),
{
    assert((48 + d) as char == c);
    if n > 0 {
        assert((10 * n + d) / 10 == n);
        assert((10 * n + d) % 10 == d);
    }
}

/// White space is what Unicode says it is.
pub proof fn law_white_space(c: char)
    ensures
        white_space(c) <==> (c == '\t' || c == '\n' || c == '\u{b}' || c == '\u{c}' || c == '\r'
            || c == ' ' || c == '\u{85}' || c == '\u{a0}' || c == '\u{1680}' || (c >= '\u{2000}' && c
            <= '\u{200a}') || c == '\u{2028}' || c == '\u{2029}' || c == '\u{202f}' || c
            == '\u{205f}' || c == '\u{3000}'),
{
}

/// A scan goes on behind white space as it does at the beginning.
proof fn lemma_word_scan_restarts(a: Seq<char>, b: Seq<char>)
    requires
        a.len() > 0,
        white_space(a.last()),
    ensures
        word_scan(a + b).0 == words(a) + word_scan(b).0,
        word_scan(a + b).1 == word_scan(b).1,
    decreases b.len(),
{
    if b.len() == 0 {
        assert(a + b =~= a);
        assert(words(a) + word_scan(b).0 =~= words(a));
    } else {
        lemma_word_scan_restarts(a, b.drop_last());
        assert((a + b).drop_last() =~= a + b.drop_last());
        assert((a + b).last() == b.last());
        let done = word_scan(b.drop_last()).0;
        let word = word_scan(b.drop_last()).1;
        assert(with_word(words(a) + done, word) =~= words(a) + with_word(done, word));
    }
}

/// White space parts words and nothing else does: the words of two texts with
/// white space between them are the words of the one and of the other, and a
/// text without white space is one word.
pub proof fn law_words_are_parted_by_white_space(a: Seq<char>, space: char, b: Seq<char>)
    requires
        white_space(space),
    ensures
        words(a.push(space) + b) == words(a) + words(b),
        (forall|i: int| 0 <= i < a.len() ==> !white_space(#[trigger] a[i])) ==> words(a)
            == if a.len() == 0 {
            Seq::empty()
        } else {
            seq![a]
        },
    decreases a.len(),
{
    lemma_word_scan_restarts(a.push(space), b);
    assert(a.push(space).drop_last() =~= a);
    assert(words(a.push(space)) == words(a));
    assert(words(a) + with_word(word_scan(b).0, word_scan(b).1) =~= with_word(
        words(a) + word_scan(b).0,
        word_scan(b).1,
    ));
    if forall|i: int| 0 <= i < a.len() ==> !white_space(#[trigger] a[i]) {
        lemma_solid_scan(a);
        assert(words(a) =~= if a.len() == 0 {
            Seq::empty()
        } else {
            seq![a]
        });
    }
}

/// A text without white space is scanned as the word in progress.
proof fn lemma_solid_scan(a: Seq<char>)
    requires
        forall|i: int| 0 <= i < a.len() ==> !white_space(#[trigger] a[i]),
    ensures
        word_scan(a).0 == Seq::<Seq<char>>::empty(),
        word_scan(a).1 == a,
    decreases a.len(),
{
    if a.len() > 0 {
        let front = a.drop_last();
        assert forall|i: int| 0 <= i < front.len() implies !white_space(#[trigger] front[i]) by {
            assert(front[i] == a[i]);
        }
        lemma_solid_scan(front);
        assert(!white_space(a[a.len() - 1]));
        assert(front.push(a.last()) =~= a);
    }
}

/// A doc string is flattened to its words with single spaces between them, and
/// to nothing if it has no words.
pub proof fn law_flattened(s: Seq<char>)
    ensures
        flattened(None) is None,
        flattened(Some(s)) is None <==> words(s).len() == 0,
        words(s).len() > 0 ==> flattened(Some(s)) == Some(joined(words(s), " "@)),
{
    law_words(s);
    law_flattened_drops_only_blank(s);
    if words(s).len() > 0 {
        let w = words(s);
        lemma_joined_is_not_empty(w);
    }
}

/// Joining texts of which none is empty gives no empty text.
proof fn lemma_joined_is_not_empty(parts: Seq<Seq<char>>)
    requires
        parts.len() > 0,
        forall|k: int| 0 <= k < parts.len() ==> (#[trigger] parts[k]).len() > 0,
    ensures
        joined(parts, " "@).len() > 0,
{
    assert(parts[parts.len() - 1].len() > 0);
    assert(parts.last().len() > 0);
}

/// A scan goes on behind a line feed as it does at the beginning.
proof fn lemma_line_scan_restarts(a: Seq<char>, b: Seq<char>)
    requires
        a.len() > 0,
        a.last() == '\n',
    ensures
        line_scan(a + b).0 == line_scan(a).0 + line_scan(b).0,
        line_scan(a + b).1 == line_scan(b).1,
    decreases b.len(),
{
    if b.len() == 0 {
        assert(a + b =~= a);
        assert(line_scan(a).0 + line_scan(b).0 =~= line_scan(a).0);
    } else {
        lemma_line_scan_restarts(a, b.drop_last());
        assert((a + b).drop_last() =~= a + b.drop_last());
        assert((a + b).last() == b.last());
        let done = line_scan(b.drop_last()).0;
        let line = line_scan(b.drop_last()).1;
        if b.last() == '\n' {
            let bare = without_carriage_return(line);
            assert((line_scan(a).0 + done).push(bare) =~= line_scan(a).0 + done.push(bare));
        }
    }
}

/// A text without line feeds is scanned as the line in progress.
proof fn lemma_unbroken_scan(a: Seq<char>)
    requires
        !a.contains('\n'),
    ensures
        line_scan(a).0 == Seq::<Seq<char>>::empty(),
        line_scan(a).1 == a,
    decreases a.len(),
{
    if a.len() > 0 {
        let front = a.drop_last();
        assert(!front.contains('\n')) by {
            if front.contains('\n') {
                let i = choose|i: int| 0 <= i < front.len() && front[i] == '\n';
                assert(a[i] == '\n');
            }
        }
        lemma_unbroken_scan(front);
        assert(a[a.len() - 1] != '\n');
        assert(front.push(a.last()) =~= a);
    }
}

/// Line feeds end lines and nothing else does: the first line of a text is what
/// stands before its first line feed, but for a carriage return directly before
/// it, and the other lines are those of what stands behind it. A text without a
/// line feed is one line, unless it is empty.
pub proof fn law_lines_end_in_line_feeds(line: Seq<char>, rest: Seq<char>)
    requires
        !line.contains('\n'),
    ensures
        lines(line.push('\n') + rest) == seq![
            if line.len() > 0 && line.last() == '\r' {
                line.drop_last()
            } else {
                line
            },
        ] + lines(rest),
        lines(line) == if line.len() == 0 {
            Seq::empty()
        } else {
            seq![line]
        },
{
    let a = line.push('\n');
    lemma_unbroken_scan(line);
    lemma_line_scan_restarts(a, rest);
    assert(a.drop_last() =~= line);
    let bare = without_carriage_return(line);
    assert(line_scan(a).0 =~= seq![bare]);
    assert(lines(a + rest) =~= seq![bare] + lines(rest));
    assert(lines(line) =~= if line.len() == 0 {
        Seq::empty()
    } else {
        seq![line]
    });
}

/// Trimming takes off the white space that a text ends in, all of it and
/// nothing else.
pub proof fn law_trimmed_end(s: Seq<char>, c: char)
    ensures
        trimmed_end(Seq::empty()) == Seq::<char>::empty(),
        white_space(c) ==> trimmed_end(s.push(c)) == trimmed_end(s),
        !white_space(c) ==> trimmed_end(s.push(c)) == s.push(c),
{
    assert(s.push(c).drop_last() =~= s);
}

/// A doc comment has one line for each line of the documentation: the indent,
/// `-- `, and the line without the white space that it ends in. Without
/// documentation there is none.
pub proof fn law_doc_comment_lines(doc: Seq<char>, indent: Seq<char>)
    ensures
        optional_doc_comment(None, indent) == Seq::<char>::empty(),
        optional_doc_comment(Some(doc), indent) == concat(
            Seq::new(
                lines(doc).len(),
                |k: int| indent + "-- "@ + trimmed_end(lines(doc)[k]) + "\n"@,
            ),
        ),
{
    assert(comment_lines(doc, indent) =~= Seq::new(
        lines(doc).len(),
        |k: int| indent + "-- "@ + trimmed_end(lines(doc)[k]) + "\n"@,
    ));
    assert(optional_doc_comment(Some(doc), indent) == doc_comment(doc, indent));
}

/// Making a name safe keeps its ASCII letters, digits and underscores and puts
/// an underscore in the place of every other character, and one in front of a
/// leading digit.
pub proof fn law_sanitized_characters(s: Seq<char>, k: int)
    requires
        0 <= k < s.len(),
    ensures
        ({
            let lead: int = if '0' <= s[0] && s[0] <= '9' {
                1
            } else {
                0
            };
            &&& sanitized(s).len() == s.len() + lead
            &&& lead == 1 ==> sanitized(s)[0] == '_'
            &&& sanitized(s)[k + lead] == if ('a' <= s[k] && s[k] <= 'z') || ('A' <= s[k] && s[k]
                <= 'Z') || ('0' <= s[k] && s[k] <= '9') {
                s[k]
            } else {
                '_'
            }
        }),
{
}

/// The keywords of Luau are these.
pub proof fn law_keywords(s: Seq<char>)
    ensures
        reserved(s) <==> (s == "and"@ || s == "break"@ || s == "do"@ || s == "else"@ || s
            == "elseif"@ || s == "end"@ || s == "false"@ || s == "for"@ || s == "function"@ || s
            == "if"@ || s == "in"@ || s == "local"@ || s == "nil"@ || s == "not"@ || s == "or"@ || s
            == "repeat"@ || s == "return"@ || s == "then"@ || s == "true"@ || s == "until"@ || s
            == "while"@ || s == "continue"@),
{
    assert(RESERVED@.len() == 22);
    assert(RESERVED@[0]@ == "and"@);
    assert(RESERVED@[1]@ == "break"@);
    assert(RESERVED@[2]@ == "do"@);
    assert(RESERVED@[3]@ == "else"@);
    assert(RESERVED@[4]@ == "elseif"@);
    assert(RESERVED@[5]@ == "end"@);
    assert(RESERVED@[6]@ == "false"@);
    assert(RESERVED@[7]@ == "for"@);
    assert(RESERVED@[8]@ == "function"@);
    assert(RESERVED@[9]@ == "if"@);
    assert(RESERVED@[10]@ == "in"@);
    assert(RESERVED@[11]@ == "local"@);
    assert(RESERVED@[12]@ == "nil"@);
    assert(RESERVED@[13]@ == "not"@);
    assert(RESERVED@[14]@ == "or"@);
    assert(RESERVED@[15]@ == "repeat"@);
    assert(RESERVED@[16]@ == "return"@);
    assert(RESERVED@[17]@ == "then"@);
    assert(RESERVED@[18]@ == "true"@);
    assert(RESERVED@[19]@ == "until"@);
    assert(RESERVED@[20]@ == "while"@);
    assert(RESERVED@[21]@ == "continue"@);
}

/// A name is bound under its safe form unless that is empty or a keyword; a
/// field is keyed by its safe form, in brackets and quotes if that is a
/// keyword.
pub proof fn law_bindings_and_keys(s: Seq<char>)
    ensures
        callable(s) == if sanitized(s).len() == 0 || reserved(sanitized(s)) {
            None
        } else {
            Some(sanitized(s))
        },
        field_key_text(s) == if reserved(sanitized(s)) {
            "[\""@ + sanitized(s) + "\"]"@
        } else {
            sanitized(s)
        },
{
}

} // verus!
