//! Text as sequences of characters: concatenation, joining, comparison.
//!
//! Every piece of output the library states is a `Seq<char>`; the executable
//! functions here build the `String`s whose views are those sequences.

use vstd::prelude::*;

verus! {

/// `String::push` appends the given character to the end of the string and
/// leaves what was there before unchanged.
pub assume_specification[ std::string::String::push ](s: &mut std::string::String, ch: char)
    ensures
        final(s)@ == old(s)@.push(ch),
;

/// The parts one after the other.
pub open spec fn concat(parts: Seq<Seq<char>>) -> Seq<char>
    decreases parts.len(),
{
    if parts.len() == 0 {
        Seq::empty()
    } else {
        concat(parts.drop_last()) + parts.last()
    }
}

/// The parts one after the other, with `sep` between neighbours.
pub open spec fn joined(parts: Seq<Seq<char>>, sep: Seq<char>) -> Seq<char>
    decreases parts.len(),
{
    if parts.len() == 0 {
        Seq::empty()
    } else if parts.len() == 1 {
        parts[0]
    } else {
        joined(parts.drop_last(), sep) + sep + parts.last()
    }
}

/// The lists one after the other.
pub open spec fn chained(lists: Seq<Seq<Seq<char>>>) -> Seq<Seq<char>>
    decreases lists.len(),
{
    if lists.len() == 0 {
        Seq::empty()
    } else {
        chained(lists.drop_last()) + lists.last()
    }
}

/// `list` with `item` added at the end, unless it is already there.
pub open spec fn with_distinct(list: Seq<Seq<char>>, item: Seq<char>) -> Seq<Seq<char>> {
    if list.contains(item) {
        list
    } else {
        list.push(item)
    }
}

/// The items of `list` without repetitions, in the order in which each first
/// occurs.
pub open spec fn distinct(list: Seq<Seq<char>>) -> Seq<Seq<char>>
    decreases list.len(),
{
    if list.len() == 0 {
        Seq::empty()
    } else {
        with_distinct(distinct(list.drop_last()), list.last())
    }
}

/// The texts that a vector of strings holds.
pub open spec fn texts(list: Seq<String>) -> Seq<Seq<char>> {
    list.map_values(|s: String| s@)
}

/// The text that an optional string holds.
pub open spec fn option_text(text: Option<String>) -> Option<Seq<char>> {
    match text {
        Some(s) => Some(s@),
        None => None,
    }
}

/// The texts that a vector of optional strings holds.
pub open spec fn option_texts(list: Seq<Option<String>>) -> Seq<Option<Seq<char>>> {
    list.map_values(|s: Option<String>| option_text(s))
}

/// Lexicographic order by code point, the order of Rust's strings.
pub open spec fn text_le(a: Seq<char>, b: Seq<char>) -> bool
    decreases a.len(),
{
    if a.len() == 0 {
        true
    } else if b.len() == 0 {
        false
    } else if a[0] == b[0] {
        text_le(a.drop_first(), b.drop_first())
    } else {
        a[0] < b[0]
    }
}

/// The decimal digit of a number below ten.
pub open spec fn digit(d: nat) -> char {
    (48 + d) as char
}

/// `part` with something in front of it and something behind it.
pub open spec fn around(before: Seq<char>, part: Seq<char>, after: Seq<char>) -> Seq<char> {
    before + part + after
}

/// Whether `part` occurs in `whole`.
pub open spec fn occurs_in(part: Seq<char>, whole: Seq<char>) -> bool {
    exists|before: Seq<char>, after: Seq<char>| whole == #[trigger] around(before, part, after)
}

/// A number in decimal, without leading zeros.
pub open spec fn decimal(n: nat) -> Seq<char>
    decreases n,
{
    if n < 10 {
        seq![digit(n)]
    } else {
        decimal(n / 10).push(digit(n % 10))
    }
}

/// One more part.
pub proof fn lemma_concat_take(parts: Seq<Seq<char>>, i: int)
    requires
        0 <= i < parts.len(),
    ensures
        concat(parts.take(i + 1)) == concat(parts.take(i)) + parts[i],
{
    assert(parts.take(i + 1).drop_last() =~= parts.take(i));
}

/// One more list.
pub proof fn lemma_chained_take(lists: Seq<Seq<Seq<char>>>, i: int)
    requires
        0 <= i < lists.len(),
    ensures
        chained(lists.take(i + 1)) == chained(lists.take(i)) + lists[i],
{
    assert(lists.take(i + 1).drop_last() =~= lists.take(i));
}

/// What is in one of several lists is in all of them put together, and the
/// other way round.
pub proof fn lemma_chained_contains(lists: Seq<Seq<Seq<char>>>, item: Seq<char>)
    ensures
        chained(lists).contains(item) <==> exists|k: int|
            0 <= k < lists.len() && (#[trigger] lists[k]).contains(item),
    decreases lists.len(),
{
    if lists.len() > 0 {
        let front = lists.drop_last();
        let last = lists.last();
        lemma_chained_contains(front, item);
        let all = chained(lists);
        let before = chained(front);
        assert(lists[lists.len() - 1] == last);
        if all.contains(item) {
            let i = choose|i: int| 0 <= i < all.len() && all[i] == item;
            if i < before.len() {
                assert(before[i] == item);
                let k = choose|k: int| 0 <= k < front.len() && (#[trigger] front[k]).contains(item);
                assert(lists[k] == front[k]);
            } else {
                assert(last[i - before.len()] == item);
            }
        }
        if exists|k: int| 0 <= k < lists.len() && (#[trigger] lists[k]).contains(item) {
            let k = choose|k: int| 0 <= k < lists.len() && (#[trigger] lists[k]).contains(item);
            if k < front.len() {
                assert(front[k] == lists[k]);
                let i = choose|i: int| 0 <= i < before.len() && before[i] == item;
                assert(all[i] == item);
            } else {
                let i = choose|i: int| 0 <= i < last.len() && last[i] == item;
                assert(all[before.len() + i] == item);
            }
        }
    }
}

/// The texts of two vectors put together.
pub proof fn lemma_texts_add(a: Seq<String>, b: Seq<String>)
    ensures
        texts(a + b) == texts(a) + texts(b),
{
    assert(texts(a + b) =~= texts(a) + texts(b));
}

/// One more item.
pub proof fn lemma_distinct_take(list: Seq<Seq<char>>, i: int)
    requires
        0 <= i < list.len(),
    ensures
        distinct(list.take(i + 1)) == with_distinct(distinct(list.take(i)), list[i]),
{
    assert(list.take(i + 1).drop_last() =~= list.take(i));
}

/// `distinct` keeps exactly the items of the list.
pub proof fn lemma_distinct_contains(list: Seq<Seq<char>>, item: Seq<char>)
    ensures
        distinct(list).contains(item) <==> list.contains(item),
    decreases list.len(),
{
    if list.len() > 0 {
        let front = list.drop_last();
        lemma_distinct_contains(front, item);
        let d = distinct(front);
        assert(list =~= front.push(list.last()));
        if front.contains(item) {
            let k = choose|k: int| 0 <= k < front.len() && front[k] == item;
            assert(list[k] == item);
        }
        if d.contains(item) {
            let k = choose|k: int| 0 <= k < d.len() && d[k] == item;
            assert(d.push(list.last())[k] == item);
        }
        if item == list.last() {
            assert(list[list.len() - 1] == item);
            assert(d.push(list.last())[d.len() as int] == item);
        }
    }
}

/// No item occurs twice in `distinct`.
pub proof fn lemma_distinct_no_duplicates(list: Seq<Seq<char>>)
    ensures
        distinct(list).no_duplicates(),
    decreases list.len(),
{
    if list.len() > 0 {
        lemma_distinct_no_duplicates(list.drop_last());
    }
}

/// What occurs in a text occurs in every text that begins with it.
pub proof fn lemma_occurs_in_left(part: Seq<char>, x: Seq<char>, y: Seq<char>)
    requires
        occurs_in(part, x),
    ensures
        occurs_in(part, x + y),
{
    let (before, after) = choose|before: Seq<char>, after: Seq<char>|
        x == #[trigger] around(before, part, after);
    assert(x + y =~= around(before, part, after + y));
}

/// What occurs in a text occurs in every text that ends with it.
pub proof fn lemma_occurs_in_right(part: Seq<char>, x: Seq<char>, y: Seq<char>)
    requires
        occurs_in(part, y),
    ensures
        occurs_in(part, x + y),
{
    let (before, after) = choose|before: Seq<char>, after: Seq<char>|
        y == #[trigger] around(before, part, after);
    assert(x + y =~= around(x + before, part, after));
}

/// Every text occurs in itself.
pub proof fn lemma_occurs_in_self(part: Seq<char>)
    ensures
        occurs_in(part, part),
{
    assert(part =~= around(Seq::empty(), part, Seq::empty()));
}

/// What occurs in one of several texts occurs in all of them put together.
pub proof fn lemma_occurs_in_concat(part: Seq<char>, parts: Seq<Seq<char>>, k: int)
    requires
        0 <= k < parts.len(),
        occurs_in(part, parts[k]),
    ensures
        occurs_in(part, concat(parts)),
    decreases parts.len(),
{
    let front = parts.drop_last();
    if k < parts.len() - 1 {
        lemma_occurs_in_concat(part, front, k);
        lemma_occurs_in_left(part, concat(front), parts.last());
    } else {
        lemma_occurs_in_right(part, concat(front), parts.last());
    }
}

/// One more string.
pub proof fn lemma_texts_push(list: Seq<String>, s: String)
    ensures
        texts(list.push(s)) == texts(list).push(s@),
{
    assert(texts(list.push(s)) =~= texts(list).push(s@));
}

/// One more optional string.
pub proof fn lemma_option_texts_push(list: Seq<Option<String>>, s: Option<String>)
    ensures
        option_texts(list.push(s)) == option_texts(list).push(option_text(s)),
{
    assert(option_texts(list.push(s)) =~= option_texts(list).push(option_text(s)));
}

/// One more item taken.
pub proof fn lemma_take_push<A>(s: Seq<A>, k: int)
    requires
        0 <= k < s.len(),
    ensures
        s.take(k + 1) == s.take(k).push(s[k]),
{
    assert(s.take(k + 1) =~= s.take(k).push(s[k]));
}

/// The order of texts is reflexive.
pub proof fn lemma_text_le_reflexive(a: Seq<char>)
    ensures
        text_le(a, a),
    decreases a.len(),
{
    if a.len() > 0 {
        lemma_text_le_reflexive(a.drop_first());
    }
}

/// The order of texts is total.
pub proof fn lemma_text_le_total(a: Seq<char>, b: Seq<char>)
    ensures
        text_le(a, b) || text_le(b, a),
    decreases a.len(),
{
    if a.len() > 0 && b.len() > 0 {
        lemma_text_le_total(a.drop_first(), b.drop_first());
    }
}

/// The order of texts is antisymmetric.
pub proof fn lemma_text_le_antisymmetric(a: Seq<char>, b: Seq<char>)
    requires
        text_le(a, b),
        text_le(b, a),
    ensures
        a == b,
    decreases a.len(),
{
    if a.len() > 0 && b.len() > 0 {
        lemma_text_le_antisymmetric(a.drop_first(), b.drop_first());
        assert(a =~= seq![a[0]] + a.drop_first());
        assert(b =~= seq![b[0]] + b.drop_first());
    } else {
        assert(a =~= b);
    }
}

/// The order of texts is transitive.
pub proof fn lemma_text_le_transitive(a: Seq<char>, b: Seq<char>, c: Seq<char>)
    requires
        text_le(a, b),
        text_le(b, c),
    ensures
        text_le(a, c),
    decreases a.len(),
{
    if a.len() > 0 && b.len() > 0 && c.len() > 0 && a[0] == b[0] && b[0] == c[0] {
        lemma_text_le_transitive(a.drop_first(), b.drop_first(), c.drop_first());
    }
}

/// Whether two texts are the same.
pub fn same_text(a: &str, b: &str) -> (r: bool)
    ensures
        r == (a@ == b@),
{
    let mut x = a.chars();
    let mut y = b.chars();
    let ghost mut i: int = 0;
    loop
        invariant
            0 <= i <= a@.len(),
            i <= b@.len(),
            vstd::std_specs::iter::IteratorSpec::remaining(&x) == a@.skip(i),
            vstd::std_specs::iter::IteratorSpec::remaining(&y) == b@.skip(i),
            a@.take(i) == b@.take(i),
        decreases a@.len() - i,
    {
        match (x.next(), y.next()) {
            (None, None) => {
                assert(a@.take(i) =~= a@);
                assert(b@.take(i) =~= b@);
                return true;
            },
            (Some(c), Some(d)) => {
                if c != d {
                    assert(a@[i] == c && b@[i] == d);
                    return false;
                }
                proof {
                    assert(a@.take(i + 1) =~= a@.take(i).push(c));
                    assert(b@.take(i + 1) =~= b@.take(i).push(d));
                    i = i + 1;
                }
            },
            _ => {
                return false;
            },
        }
    }
}

/// Whether the first text does not come after the second.
pub fn text_at_most(a: &str, b: &str) -> (r: bool)
    ensures
        r == text_le(a@, b@),
{
    let mut x = a.chars();
    let mut y = b.chars();
    let ghost mut i: int = 0;
    assert(a@.skip(0) =~= a@);
    assert(b@.skip(0) =~= b@);
    loop
        invariant
            0 <= i <= a@.len(),
            i <= b@.len(),
            vstd::std_specs::iter::IteratorSpec::remaining(&x) == a@.skip(i),
            vstd::std_specs::iter::IteratorSpec::remaining(&y) == b@.skip(i),
            text_le(a@, b@) == text_le(a@.skip(i), b@.skip(i)),
        decreases a@.len() - i,
    {
        match (x.next(), y.next()) {
            (None, _) => {
                return true;
            },
            (Some(_), None) => {
                return false;
            },
            (Some(c), Some(d)) => {
                if c != d {
                    return c < d;
                }
                proof {
                    assert(a@.skip(i).drop_first() =~= a@.skip(i + 1));
                    assert(b@.skip(i).drop_first() =~= b@.skip(i + 1));
                    i = i + 1;
                }
            },
        }
    }
}

/// Whether `text` begins with `prefix`.
pub fn starts_with(text: &str, prefix: &str) -> (r: bool)
    ensures
        r == prefix@.is_prefix_of(text@),
{
    let mut x = text.chars();
    let mut y = prefix.chars();
    let ghost mut i: int = 0;
    loop
        invariant
            0 <= i <= prefix@.len(),
            i <= text@.len(),
            vstd::std_specs::iter::IteratorSpec::remaining(&x) == text@.skip(i),
            vstd::std_specs::iter::IteratorSpec::remaining(&y) == prefix@.skip(i),
            text@.take(i) == prefix@.take(i),
        decreases prefix@.len() - i,
    {
        match (x.next(), y.next()) {
            (_, None) => {
                assert(prefix@.take(i) =~= prefix@);
                assert(text@.subrange(0, i) =~= text@.take(i));
                return true;
            },
            (None, Some(_)) => {
                return false;
            },
            (Some(c), Some(d)) => {
                if c != d {
                    assert(text@[i] == c && prefix@[i] == d);
                    assert(prefix@.is_prefix_of(text@) ==> text@.subrange(
                        0,
                        prefix@.len() as int,
                    )[i] == prefix@[i]);
                    return false;
                }
                proof {
                    assert(text@.take(i + 1) =~= text@.take(i).push(c));
                    assert(prefix@.take(i + 1) =~= prefix@.take(i).push(d));
                    i = i + 1;
                }
            },
        }
    }
}

/// Whether `item` is one of the texts in `list`.
pub fn contains_text(list: &Vec<String>, item: &str) -> (r: bool)
    ensures
        r == texts(list@).contains(item@),
{
    let mut i: usize = 0;
    while i < list.len()
        invariant
            i <= list.len(),
            forall|k: int| 0 <= k < i ==> list@[k]@ != item@,
        decreases list.len() - i,
    {
        if same_text(list[i].as_str(), item) {
            assert(texts(list@)[i as int] == item@);
            return true;
        }
        i += 1;
    }
    false
}

/// Adds `item` to `list` unless it is already there.
pub fn push_distinct(list: &mut Vec<String>, item: String)
    ensures
        texts(final(list)@) == with_distinct(texts(old(list)@), item@),
{
    if !contains_text(list, item.as_str()) {
        proof {
            lemma_texts_push(list@, item);
        }
        list.push(item);
    }
}

/// The texts, each once, in the order in which each first appears.
pub fn distinct_texts(list: &Vec<String>) -> (r: Vec<String>)
    ensures
        texts(r@) == distinct(texts(list@)),
{
    let ghost all = texts(list@);
    let mut out: Vec<String> = Vec::new();
    let mut i: usize = 0;
    assert(texts(out@) =~= distinct(all.take(0)));
    while i < list.len()
        invariant
            i <= list@.len(),
            all == texts(list@),
            texts(out@) == distinct(all.take(i as int)),
        decreases list@.len() - i,
    {
        proof {
            lemma_distinct_take(all, i as int);
        }
        push_distinct(&mut out, list[i].clone());
        i += 1;
    }
    assert(all.take(i as int) =~= all);
    out
}

/// The strings of `parts` with `sep` between neighbours.
pub fn join(parts: &Vec<String>, sep: &str) -> (r: String)
    ensures
        r@ == joined(texts(parts@), sep@),
{
    if parts.len() == 0 {
        return String::new();
    }
    let mut out = parts[0].clone();
    let ghost all = texts(parts@);
    let mut i: usize = 1;
    while i < parts.len()
        invariant
            1 <= i <= parts.len(),
            all == texts(parts@),
            out@ == joined(all.take(i as int), sep@),
        decreases parts.len() - i,
    {
        assert(all.take(i + 1).drop_last() =~= all.take(i as int));
        out.append(sep);
        out.append(parts[i].as_str());
        i += 1;
    }
    assert(all.take(i as int) =~= all);
    out
}

/// A number in decimal.
pub fn to_decimal(n: usize) -> (r: String)
    ensures
        r@ == decimal(n as nat),
    decreases n,
{
    let mut out = if n < 10 {
        String::new()
    } else {
        to_decimal(n / 10)
    };
    let d: u8 = 48 + (n % 10) as u8;
    out.push(d as char);
    proof {
        if n < 10 {
            assert(out@ =~= decimal(n as nat));
        }
    }
    out
}

} // verus!
