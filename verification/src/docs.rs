//! Documentation comments: splitting text into words and lines and rendering
//! it behind `--`.

use vstd::prelude::*;

use crate::text::{concat, join, joined, lemma_concat_take, lemma_texts_push, option_text, texts};

verus! {

/// A character with the Unicode `White_Space` property.
pub open spec fn white_space(c: char) -> bool {
    let u = c as u32;
    ||| 0x9 <= u <= 0xd
    ||| u == 0x20
    ||| u == 0x85
    ||| u == 0xa0
    ||| u == 0x1680
    ||| 0x2000 <= u <= 0x200a
    ||| u == 0x2028
    ||| u == 0x2029
    ||| u == 0x202f
    ||| u == 0x205f
    ||| u == 0x3000
}

/// The words of a text that ended before its end, and the word in progress
/// there.
pub open spec fn word_scan(s: Seq<char>) -> (Seq<Seq<char>>, Seq<char>)
    decreases s.len(),
{
    if s.len() == 0 {
        (Seq::empty(), Seq::empty())
    } else {
        let (done, word) = word_scan(s.drop_last());
        if !white_space(s.last()) {
            (done, word.push(s.last()))
        } else {
            (with_word(done, word), Seq::empty())
        }
    }
}

/// `done` with `word` added, unless it is empty.
pub open spec fn with_word(done: Seq<Seq<char>>, word: Seq<char>) -> Seq<Seq<char>> {
    if word.len() == 0 {
        done
    } else {
        done.push(word)
    }
}

/// The words of a text: its longest runs without white space.
pub open spec fn words(s: Seq<char>) -> Seq<Seq<char>> {
    with_word(word_scan(s).0, word_scan(s).1)
}

/// A doc string flattened onto one line, if it carries anything.
pub open spec fn flattened(doc: Option<Seq<char>>) -> Option<Seq<char>> {
    match doc {
        Some(s) => if joined_words(s).len() == 0 {
            None
        } else {
            Some(joined_words(s))
        },
        None => None,
    }
}

/// The words of a text with one space between neighbours.
pub open spec fn joined_words(s: Seq<char>) -> Seq<char> {
    joined(words(s), " "@)
}

/// `s` without the carriage return that it may end in.
pub open spec fn without_carriage_return(s: Seq<char>) -> Seq<char> {
    if s.len() > 0 && s.last() == '\r' {
        s.drop_last()
    } else {
        s
    }
}

/// The lines of a text that a line feed ended, and the unfinished line behind
/// the last line feed.
pub open spec fn line_scan(s: Seq<char>) -> (Seq<Seq<char>>, Seq<char>)
    decreases s.len(),
{
    if s.len() == 0 {
        (Seq::empty(), Seq::empty())
    } else {
        let (done, line) = line_scan(s.drop_last());
        if s.last() == '\n' {
            (done.push(without_carriage_return(line)), Seq::empty())
        } else {
            (done, line.push(s.last()))
        }
    }
}

/// The lines of a text. A line ends in a line feed, or in a carriage return
/// and a line feed; the ending of the last line may be missing.
pub open spec fn lines(s: Seq<char>) -> Seq<Seq<char>> {
    let (done, line) = line_scan(s);
    if line.len() == 0 {
        done
    } else {
        done.push(line)
    }
}

/// `s` without the white space that it ends in.
pub open spec fn trimmed_end(s: Seq<char>) -> Seq<char>
    decreases s.len(),
{
    if s.len() > 0 && white_space(s.last()) {
        trimmed_end(s.drop_last())
    } else {
        s
    }
}

/// One line of a doc comment.
pub open spec fn comment_line(line: Seq<char>, indent: Seq<char>) -> Seq<char> {
    indent + "-- "@ + trimmed_end(line) + "\n"@
}

/// The lines of a doc comment.
pub open spec fn comment_lines(doc: Seq<char>, indent: Seq<char>) -> Seq<Seq<char>> {
    lines(doc).map_values(|line: Seq<char>| comment_line(line, indent))
}

/// A (possibly multi-line) doc comment with the given indent.
pub open spec fn doc_comment(doc: Seq<char>, indent: Seq<char>) -> Seq<char> {
    concat(comment_lines(doc, indent))
}

/// A doc comment with the given indent, or nothing without documentation.
pub open spec fn optional_doc_comment(doc: Option<Seq<char>>, indent: Seq<char>) -> Seq<char> {
    match doc {
        Some(s) => doc_comment(s, indent),
        None => Seq::empty(),
    }
}

/// Whether a text is free of white space.
pub open spec fn solid(s: Seq<char>) -> bool {
    forall|i: int| 0 <= i < s.len() ==> !white_space(#[trigger] s[i])
}

/// What is scanned are words, and together they are all but the white space.
proof fn lemma_word_scan(s: Seq<char>)
    ensures
        forall|k: int|
            0 <= k < word_scan(s).0.len() ==> (#[trigger] word_scan(s).0[k]).len() > 0 && solid(
                word_scan(s).0[k],
            ),
        solid(word_scan(s).1),
        concat(word_scan(s).0) + word_scan(s).1 == s.filter(|c: char| !white_space(c)),
    decreases s.len(),
{
    reveal(Seq::filter);
    if s.len() > 0 {
        lemma_word_scan(s.drop_last());
        let (done, word) = word_scan(s.drop_last());
        let keep = |c: char| !white_space(c);
        if white_space(s.last()) {
            assert(done.push(word).drop_last() =~= done);
            assert(concat(with_word(done, word)) + Seq::<char>::empty()
                =~= concat(done) + word);
        } else {
            assert(concat(done) + word.push(s.last()) =~= (concat(done)
                + word).push(s.last()));
        }
    } else {
        assert(concat(word_scan(s).0) + word_scan(s).1 =~= Seq::<char>::empty());
    }
}

/// The words of a text are not empty and hold no white space, and together
/// they are all of the text but its white space.
pub proof fn law_words(s: Seq<char>)
    ensures
        forall|k: int|
            0 <= k < words(s).len() ==> (#[trigger] words(s)[k]).len() > 0 && solid(words(s)[k]),
        concat(words(s)) == s.filter(|c: char| !white_space(c)),
{
    lemma_word_scan(s);
    let (done, word) = word_scan(s);
    assert(done.push(word).drop_last() =~= done);
    if word.len() == 0 {
        assert(concat(done) + word =~= concat(done));
    }
}

/// A single line: no white space but spaces between words, one at a time.
pub open spec fn is_flat(s: Seq<char>) -> bool {
    &&& s.len() > 0 ==> !white_space(s[0]) && !white_space(s.last())
    &&& forall|i: int| 0 <= i < s.len() && white_space(#[trigger] s[i]) ==> s[i] == ' '
    &&& forall|i: int|
        0 <= i < s.len() - 1 && white_space(#[trigger] s[i]) ==> !white_space(s[i + 1])
}

/// Words with single spaces between them are flat.
proof fn lemma_joined_flat(parts: Seq<Seq<char>>)
    requires
        forall|k: int|
            0 <= k < parts.len() ==> (#[trigger] parts[k]).len() > 0 && solid(parts[k]),
    ensures
        is_flat(joined(parts, " "@)),
        parts.len() > 0 ==> joined(parts, " "@).len() > 0,
    decreases parts.len(),
{
    reveal_strlit(" ");
    if parts.len() > 1 {
        let front = parts.drop_last();
        assert forall|k: int| 0 <= k < front.len() implies (#[trigger] front[k]).len() > 0
            && solid(front[k]) by {
            assert(front[k] == parts[k]);
        }
        lemma_joined_flat(front);
        let a = joined(front, " "@);
        let z = parts[parts.len() - 1];
        let r = joined(parts, " "@);
        assert(r == a + " "@ + z);
        assert(r.len() == a.len() + 1 + z.len());
        assert forall|i: int| 0 <= i < r.len() implies #[trigger] r[i] == (if i < a.len() {
            a[i]
        } else if i == a.len() {
            ' '
        } else {
            z[i - a.len() - 1]
        }) by {}
        assert forall|i: int| 0 <= i < r.len() && white_space(#[trigger] r[i]) implies r[i]
            == ' ' by {
            if i > a.len() {
                assert(!white_space(z[i - a.len() - 1]));
            } else if i < a.len() {
                assert(white_space(a[i]));
            }
        }
        assert forall|i: int| 0 <= i < r.len() - 1 && white_space(#[trigger] r[i]) implies
            !white_space(r[i + 1]) by {
            if i > a.len() {
                assert(!white_space(z[i - a.len() - 1]));
            } else if i == a.len() {
                assert(!white_space(z[0]));
            } else if i == a.len() - 1 {
                assert(!white_space(a.last()));
            } else {
                assert(white_space(a[i]));
            }
        }
        assert(!white_space(z[z.len() - 1]));
        assert(r.last() == z[z.len() - 1]);
    } else if parts.len() == 1 {
        let z = parts[0];
        assert(!white_space(z[0]));
        assert(!white_space(z[z.len() - 1]));
    }
}

/// A flattened doc string fits on one line, with single spaces between its
/// words and none around them.
pub proof fn law_flattened_is_flat(doc: Option<Seq<char>>)
    ensures
        flattened(doc) matches Some(line) ==> line.len() > 0 && is_flat(line),
{
    if let Some(s) = doc {
        law_words(s);
        lemma_joined_flat(words(s));
    }
}

/// Characters that are no white space continue the word in progress.
proof fn lemma_word_scan_solid(s: Seq<char>, z: Seq<char>)
    requires
        solid(z),
    ensures
        word_scan(s + z) == (word_scan(s).0, word_scan(s).1 + z),
    decreases z.len(),
{
    if z.len() == 0 {
        assert(s + z =~= s);
        assert(word_scan(s).1 + z =~= word_scan(s).1);
    } else {
        let front = z.drop_last();
        assert forall|i: int| 0 <= i < front.len() implies !white_space(#[trigger] front[i]) by {
            assert(front[i] == z[i]);
        }
        lemma_word_scan_solid(s, front);
        assert((s + z).drop_last() =~= s + front);
        assert(!white_space(z[z.len() - 1]));
        assert(word_scan(s).1 + z =~= (word_scan(s).1 + front).push(z.last()));
    }
}

/// Words with single spaces between them are the words of the whole.
proof fn lemma_words_of_joined(parts: Seq<Seq<char>>)
    requires
        forall|k: int|
            0 <= k < parts.len() ==> (#[trigger] parts[k]).len() > 0 && solid(parts[k]),
    ensures
        words(joined(parts, " "@)) == parts,
        parts.len() > 0 ==> word_scan(joined(parts, " "@)) == (parts.drop_last(), parts.last()),
    decreases parts.len(),
{
    reveal_strlit(" ");
    if parts.len() == 0 {
        assert(words(joined(parts, " "@)) =~= parts);
    } else {
        let front = parts.drop_last();
        let z = parts[parts.len() - 1];
        assert forall|k: int| 0 <= k < front.len() implies (#[trigger] front[k]).len() > 0
            && solid(front[k]) by {
            assert(front[k] == parts[k]);
        }
        lemma_words_of_joined(front);
        let empty = Seq::<char>::empty();
        if parts.len() == 1 {
            lemma_word_scan_solid(empty, z);
            assert(empty + z =~= z);
            assert(front =~= Seq::<Seq<char>>::empty());
        } else {
            let a = joined(front, " "@);
            let spaced = a + " "@;
            assert(spaced.drop_last() =~= a);
            assert(spaced.last() == ' ');
            assert(word_scan(spaced) == (words(a), empty));
            lemma_word_scan_solid(spaced, z);
            assert(empty + z =~= z);
        }
        assert(front.push(z) =~= parts);
    }
}

/// Flattening a flattened doc string changes nothing.
pub proof fn law_flattened_idempotent(doc: Option<Seq<char>>)
    ensures
        flattened(flattened(doc)) == flattened(doc),
{
    if let Some(s) = doc {
        law_words(s);
        lemma_words_of_joined(words(s));
    }
}

/// A doc string carries something exactly if it holds more than white space.
pub proof fn law_flattened_drops_only_blank(s: Seq<char>)
    ensures
        flattened(Some(s)) is None <==> forall|i: int|
            0 <= i < s.len() ==> white_space(#[trigger] s[i]),
{
    law_words(s);
    lemma_joined_flat(words(s));
    let keep = |c: char| !white_space(c);
    let kept = s.filter(keep);
    assert(words(s).len() == 0 ==> joined_words(s).len() == 0);
    if words(s).len() > 0 {
        let w = words(s).last();
        assert(words(s)[words(s).len() - 1].len() > 0);
        assert(concat(words(s)).len() > 0);
        s.lemma_filter_pred(keep, 0);
        s.lemma_filter_contains_rev(keep, kept[0]);
    } else {
        assert forall|i: int| 0 <= i < s.len() implies white_space(#[trigger] s[i]) by {
            if !white_space(s[i]) {
                broadcast use vstd::seq_lib::group_filter_ensures;

                assert(keep(s[i]));
                assert(kept.contains(s[i]));
            }
        }
    }
}

/// What is scanned holds no line feed.
proof fn lemma_line_scan(s: Seq<char>)
    ensures
        forall|k: int| 0 <= k < line_scan(s).0.len() ==> !(#[trigger] line_scan(s).0[k]).contains('\n'),
        !line_scan(s).1.contains('\n'),
    decreases s.len(),
{
    if s.len() > 0 {
        lemma_line_scan(s.drop_last());
        let (done, line) = line_scan(s.drop_last());
        let bare = without_carriage_return(line);
        assert forall|k: int| 0 <= k < bare.len() implies bare[k] != '\n' by {
            assert(bare[k] == line[k]);
            assert(line.contains(line[k]));
        }
        let longer = line.push(s.last());
        assert forall|k: int| 0 <= k < longer.len() && s.last() != '\n' implies longer[k]
            != '\n' by {
            if k < line.len() {
                assert(longer[k] == line[k]);
                assert(line.contains(line[k]));
            }
        }
    }
}

/// No line of a text holds a line feed.
pub proof fn law_lines(s: Seq<char>)
    ensures
        forall|k: int| 0 <= k < lines(s).len() ==> !(#[trigger] lines(s)[k]).contains('\n'),
{
    lemma_line_scan(s);
}

/// Trimming takes off white space at the end, and all of it.
proof fn lemma_trimmed_end(s: Seq<char>)
    ensures
        trimmed_end(s).len() <= s.len(),
        trimmed_end(s) == s.take(trimmed_end(s).len() as int),
        forall|i: int| trimmed_end(s).len() <= i < s.len() ==> white_space(#[trigger] s[i]),
        trimmed_end(s).len() > 0 ==> !white_space(trimmed_end(s).last()),
    decreases s.len(),
{
    if s.len() > 0 && white_space(s.last()) {
        lemma_trimmed_end(s.drop_last());
        let t = trimmed_end(s.drop_last());
        assert(s.drop_last().take(t.len() as int) =~= s.take(t.len() as int));
        assert forall|i: int| t.len() <= i < s.len() implies white_space(#[trigger] s[i]) by {
            if i < s.len() - 1 {
                assert(s.drop_last()[i] == s[i]);
            }
        }
    } else {
        assert(s.take(s.len() as int) =~= s);
    }
}

/// Documentation cannot escape its comment: each line of a doc comment is the
/// indent, `-- `, and text that holds no line feed and ends in no white space,
/// and the one line feed at its end.
pub proof fn law_doc_comment_stays_comment(doc: Seq<char>, indent: Seq<char>, k: int)
    requires
        0 <= k < comment_lines(doc, indent).len(),
    ensures
        comment_lines(doc, indent)[k] == indent + "-- "@ + trimmed_end(lines(doc)[k]) + "\n"@,
        !trimmed_end(lines(doc)[k]).contains('\n'),
        trimmed_end(lines(doc)[k]).len() > 0 ==> !white_space(trimmed_end(lines(doc)[k]).last()),
{
    law_lines(doc);
    let line = lines(doc)[k];
    lemma_trimmed_end(line);
    let body = trimmed_end(line);
    assert forall|i: int| 0 <= i < body.len() implies body[i] != '\n' by {
        assert(body[i] == line[i]);
        assert(line.contains(line[i]));
    }
}

/// Whether a character has the Unicode `White_Space` property.
pub fn is_white_space(c: char) -> (r: bool)
    ensures
        r == white_space(c),
{
    let u: u32 = c as u32;
    (0x9 <= u && u <= 0xd) || u == 0x20 || u == 0x85 || u == 0xa0 || u == 0x1680 || (0x2000 <= u
        && u <= 0x200a) || u == 0x2028 || u == 0x2029 || u == 0x202f || u == 0x205f || u == 0x3000
}

/// The words of a text: its longest runs without white space.
pub fn split_words(s: &str) -> (r: Vec<String>)
    ensures
        texts(r@) == words(s@),
{
    let mut done: Vec<String> = Vec::new();
    let mut word = String::new();
    assert(texts(done@) =~= Seq::<Seq<char>>::empty());
    for c in it: s.chars()
        invariant
            it.seq() == s@,
            (texts(done@), word@) == word_scan(s@.take(it.index())),
    {
        proof {
            let next = s@.take(it.index() + 1);
            assert(next.drop_last() =~= s@.take(it.index()));
            assert(next.last() == c);
            lemma_texts_push(done@, word);
        }
        if is_white_space(c) {
            if !word.as_str().is_empty() {
                done.push(word);
            }
            word = String::new();
        } else {
            word.push(c);
        }
    }
    assert(s@.take(s@.len() as int) =~= s@);
    proof {
        lemma_texts_push(done@, word);
    }
    if !word.as_str().is_empty() {
        done.push(word);
    }
    done
}

/// A doc string flattened onto one line, or `None` if it carries nothing.
/// Argument and return docs are single-sentence by convention, and a `--`
/// comment cannot span lines without repeating the prefix.
pub fn doc_line(doc: &Option<String>) -> (r: Option<String>)
    ensures
        option_text(r) == flattened(option_text(*doc)),
{
    match doc {
        Some(s) => {
            let flat = join(&split_words(s.as_str()), " ");
            if flat.as_str().is_empty() {
                None
            } else {
                Some(flat)
            }
        },
        None => None,
    }
}

/// The characters of a text.
fn characters(s: &str) -> (r: Vec<char>)
    ensures
        r@ == s@,
{
    let mut out: Vec<char> = Vec::new();
    for c in it: s.chars()
        invariant
            it.seq() == s@,
            out@ == s@.take(it.index()),
    {
        assert(s@.take(it.index() + 1) =~= s@.take(it.index()).push(c));
        out.push(c);
    }
    assert(s@.take(s@.len() as int) =~= s@);
    out
}

/// The text of the first `n` characters.
fn text_of_first(s: &Vec<char>, n: usize) -> (r: String)
    requires
        n <= s@.len(),
    ensures
        r@ == s@.take(n as int),
{
    let mut out = String::new();
    let mut i: usize = 0;
    assert(s@.take(0) =~= Seq::<char>::empty());
    while i < n
        invariant
            i <= n <= s@.len(),
            out@ == s@.take(i as int),
        decreases n - i,
    {
        assert(s@.take(i + 1) =~= s@.take(i as int).push(s@[i as int]));
        out.push(s[i]);
        i += 1;
    }
    out
}

/// `s` without the white space that it ends in.
pub fn trim_end(s: &str) -> (r: String)
    ensures
        r@ == trimmed_end(s@),
{
    let chars = characters(s);
    let mut n: usize = chars.len();
    assert(s@.take(n as int) =~= s@);
    while n > 0 && is_white_space(chars[n - 1])
        invariant
            n <= chars.len(),
            chars@ == s@,
            trimmed_end(s@.take(n as int)) == trimmed_end(s@),
        decreases n,
    {
        assert(s@.take(n as int).drop_last() =~= s@.take(n - 1));
        n -= 1;
    }
    text_of_first(&chars, n)
}

fn strip_carriage_return(s: &Vec<char>) -> (r: String)
    ensures
        r@ == without_carriage_return(s@),
{
    if s.len() > 0 && s[s.len() - 1] == '\r' {
        assert(s@.take(s@.len() - 1) =~= s@.drop_last());
        text_of_first(s, s.len() - 1)
    } else {
        assert(s@.take(s@.len() as int) =~= s@);
        text_of_first(s, s.len())
    }
}

/// The lines of a text, without their endings.
pub fn split_lines(s: &str) -> (r: Vec<String>)
    ensures
        texts(r@) == lines(s@),
{
    let mut done: Vec<String> = Vec::new();
    let mut line: Vec<char> = Vec::new();
    assert(texts(done@) =~= Seq::<Seq<char>>::empty());
    for c in it: s.chars()
        invariant
            it.seq() == s@,
            (texts(done@), line@) == line_scan(s@.take(it.index())),
    {
        proof {
            let next = s@.take(it.index() + 1);
            assert(next.drop_last() =~= s@.take(it.index()));
            assert(next.last() == c);
        }
        if c == '\n' {
            let finished = strip_carriage_return(&line);
            proof {
                lemma_texts_push(done@, finished);
            }
            done.push(finished);
            line = Vec::new();
        } else {
            line.push(c);
        }
    }
    assert(s@.take(s@.len() as int) =~= s@);
    if line.len() > 0 {
        let rest = text_of_first(&line, line.len());
        assert(line@.take(line@.len() as int) =~= line@);
        proof {
            lemma_texts_push(done@, rest);
        }
        done.push(rest);
    }
    done
}

/// Emit a (possibly multi-line) doc comment with the given indent.
pub fn push_doc(out: &mut String, doc: &str, indent: &str)
    ensures
        final(out)@ == old(out)@ + doc_comment(doc@, indent@),
{
    let all = split_lines(doc);
    let ghost parts = comment_lines(doc@, indent@);
    let ghost start = out@;
    let mut i: usize = 0;
    assert(start + concat(parts.take(0)) =~= start);
    while i < all.len()
        invariant
            i <= all.len(),
            texts(all@) == lines(doc@),
            parts == comment_lines(doc@, indent@),
            out@ == start + concat(parts.take(i as int)),
        decreases all.len() - i,
    {
        let mut line = indent.to_owned();
        line.append("-- ");
        line.append(trim_end(all[i].as_str()).as_str());
        line.append("\n");
        proof {
            assert(texts(all@)[i as int] == all@[i as int]@);
            lemma_concat_take(parts, i as int);
            assert(start + concat(parts.take(i as int)) + line@ =~= start + (
            concat(parts.take(i as int)) + line@));
        }
        out.append(line.as_str());
        i += 1;
    }
    assert(texts(all@).len() == all@.len());
    assert(parts.take(i as int) =~= parts);
}

} // verus!
