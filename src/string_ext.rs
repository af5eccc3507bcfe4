use vstd::prelude::*;
use itertools::Itertools;

verus! {

/// The text that stands for an empty list.
pub open spec fn nothing_text() -> Seq<char> {
    seq!['n', 'o', 't', 'h', 'i', 'n', 'g']
}

/// The separator between two items of a list of three or more.
pub open spec fn comma_text() -> Seq<char> {
    seq![',', ' ']
}

/// The words between the two items of a list of exactly two.
pub open spec fn and_text() -> Seq<char> {
    seq![' ', 'a', 'n', 'd', ' ']
}

/// The words before the last item of a list of three or more (the oxford comma).
pub open spec fn comma_and_text() -> Seq<char> {
    seq![',', ' ', 'a', 'n', 'd', ' ']
}

/// `items` joined with `", "` between each two neighbours.
pub open spec fn joined(items: Seq<Seq<char>>) -> Seq<char>
    decreases items.len(),
{
    if items.len() == 0 {
        Seq::empty()
    } else if items.len() == 1 {
        items[0]
    } else {
        joined(items.drop_last()) + comma_text() + items.last()
    }
}

/// The sentence fragment that names `items`: "nothing", the single item,
/// "x and y", or "a, b, ..., and z" with the oxford comma.
pub open spec fn list_text(items: Seq<Seq<char>>) -> Seq<char> {
    if items.len() == 0 {
        nothing_text()
    } else if items.len() == 1 {
        items[0]
    } else if items.len() == 2 {
        items[0] + and_text() + items[1]
    } else {
        joined(items.drop_last()) + comma_and_text() + items.last()
    }
}

/// The texts that a slice of string slices holds.
pub open spec fn slice_texts(list: Seq<&str>) -> Seq<Seq<char>> {
    list.map_values(|s: &str| s@)
}

/// The texts that a slice of owned strings holds.
pub open spec fn string_texts(list: Seq<String>) -> Seq<Seq<char>> {
    list.map_values(|s: String| s@)
}

/// Relies on `itertools::Itertools::collect_vec`: it collects the items of an
/// iterator into a `Vec`, in the order in which the iterator yields them.
#[verifier::external_body]
fn borrow_all(list: &[String]) -> (r: Vec<&str>)
    ensures
        r@.len() == list@.len(),
        forall|i: int| 0 <= i < r@.len() ==> r@[i]@ == list@[i]@,
{
    list.iter().map(String::as_str).collect_vec()
}

proof fn lemma_joined_step(items: Seq<Seq<char>>, i: int)
    requires
        1 <= i < items.len(),
    ensures
        joined(items.subrange(0, i + 1)) == joined(items.subrange(0, i)) + comma_text()
            + items[i],
{
    let next = items.subrange(0, i + 1);
    assert(next.drop_last() =~= items.subrange(0, i));
    assert(next.last() == items[i]);
}

/// Formats a list of string slices with commas and "and" where needed,
/// using the oxford comma.
pub fn format_list_slices(list: &[&str]) -> (r: String)
    ensures
        r@ == list_text(slice_texts(list@)),
{
    let ghost items = slice_texts(list@);
    let n: usize = list.len();
    if n == 0 {
        let r = "nothing".to_owned();
        proof {
            reveal_strlit("nothing");
            assert(r@ =~= nothing_text());
        }
        r
    } else if n == 1 {
        list[0].to_owned()
    } else if n == 2 {
        let mut r = list[0].to_owned();
        r.append(" and ");
        r.append(list[1]);
        proof {
            reveal_strlit(" and ");
            assert(r@ =~= list_text(items));
        }
        r
    } else {
        let mut r = list[0].to_owned();
        let mut i: usize = 1;
        proof {
            reveal_strlit(", ");
            assert(items.subrange(0, 1) =~= seq![items[0]]);
        }
        while i < n - 1
            invariant
                1 <= i <= n - 1,
                n == list@.len(),
                items == slice_texts(list@),
                r@ == joined(items.subrange(0, i as int)),
            decreases n - 1 - i,
        {
            r.append(", ");
            r.append(list[i]);
            proof {
                reveal_strlit(", ");
                lemma_joined_step(items, i as int);
                assert(r@ =~= joined(items.subrange(0, i as int)) + comma_text() + items[i as int]);
            }
            i = i + 1;
        }
        r.append(", and ");
        r.append(list[n - 1]);
        proof {
            reveal_strlit(", and ");
            assert(items.subrange(0, (n - 1) as int) =~= items.drop_last());
            assert(r@ =~= list_text(items));
        }
        r
    }
}

/// Formats a list of strings with commas and "and" where needed, using the
/// oxford comma. Gives the same text as `format_list_slices` on the same items.
pub fn format_list(list: &[String]) -> (r: String)
    ensures
        r@ == list_text(string_texts(list@)),
{
    let slices = borrow_all(list);
    let r = format_list_slices(slices.as_slice());
    proof {
        assert(slice_texts(slices@) =~= string_texts(list@));
    }
    r
}

/// Whether `c` has the Unicode `White_Space` property, as `char::is_whitespace`
/// documents it.
pub open spec fn is_white_space(c: char) -> bool {
    let u = c as u32;
    ||| 0x9 <= u <= 0xd
    ||| u == 0x20
    ||| u == 0x85
    ||| u == 0xa0
    ||| u == 0x1680
    ||| 0x2000 <= u <= 0x200a
    ||| u == 0x2028
    ||| u == 0x2029
    ||| u == 0x202f
    ||| u == 0x205f
    ||| u == 0x3000
}

/// `s` without its leading white space.
pub open spec fn trim_start(s: Seq<char>) -> Seq<char>
    decreases s.len(),
{
    if s.len() > 0 && is_white_space(s[0]) {
        trim_start(s.drop_first())
    } else {
        s
    }
}

/// `s` without its trailing white space.
pub open spec fn trim_end(s: Seq<char>) -> Seq<char>
    decreases s.len(),
{
    if s.len() > 0 && is_white_space(s.last()) {
        trim_end(s.drop_last())
    } else {
        s
    }
}

/// `s` without its leading and trailing white space.
pub open spec fn trimmed(s: Seq<char>) -> Seq<char> {
    trim_end(trim_start(s))
}

/// Relies on `str::trim`: the slice with leading and trailing white space
/// (the Unicode `White_Space` property) removed.
#[verifier::external_body]
fn trim_text(s: &str) -> (r: &str)
    ensures
        r@ == trimmed(s@),
{
    s.trim()
}

/// Why a line of input was not accepted.
#[derive(Debug, Clone, Copy, PartialEq, Eq)]
pub enum ReadError {
    /// The line held nothing but white space.
    EmptyInput,
}

/// Trims a line that was read from an input source. A line that trims to
/// nothing is refused with `ReadError::EmptyInput`.
pub fn read_string(line: &str) -> (r: Result<String, ReadError>)
    ensures
        trimmed(line@).len() == 0 <==> r is Err,
        r is Ok ==> r->Ok_0@ == trimmed(line@),
        r is Err ==> r->Err_0 == ReadError::EmptyInput,
{
    let t = trim_text(line);
    if t.is_empty() {
        Err(ReadError::EmptyInput)
    } else {
        Ok(t.to_owned())
    }
}

/// Each of `items` stands in `text` at the matching offset of `pos`, and the
/// places follow one another in order without overlapping.
pub open spec fn placed_at(text: Seq<char>, items: Seq<Seq<char>>, pos: Seq<int>) -> bool {
    &&& pos.len() == items.len()
    &&& forall|i: int|
        0 <= i < items.len() ==> {
            &&& 0 <= #[trigger] pos[i]
            &&& pos[i] + items[i].len() <= text.len()
            &&& text.subrange(pos[i], pos[i] + items[i].len()) == items[i]
        }
    &&& forall|i: int| 0 <= i < items.len() - 1 ==> pos[i] + items[i].len() <= #[trigger] pos[i + 1]
}

/// `text` holds every one of `items` as a substring, in order.
pub open spec fn contains_in_order(text: Seq<char>, items: Seq<Seq<char>>) -> bool {
    exists|pos: Seq<int>| placed_at(text, items, pos)
}

proof fn lemma_place_last(
    text: Seq<char>,
    sep: Seq<char>,
    items: Seq<Seq<char>>,
    pos: Seq<int>,
    x: Seq<char>,
)
    requires
        placed_at(text, items, pos),
    ensures
        placed_at(text + sep + x, items.push(x), pos.push(text.len() + sep.len() as int)),
{
    let whole = text + sep + x;
    let items2 = items.push(x);
    let pos2 = pos.push(text.len() + sep.len() as int);
    assert forall|i: int| 0 <= i < items2.len() implies {
        &&& 0 <= #[trigger] pos2[i]
        &&& pos2[i] + items2[i].len() <= whole.len()
        &&& whole.subrange(pos2[i], pos2[i] + items2[i].len()) == items2[i]
    } by {
        if i < items.len() {
            assert(whole.subrange(pos[i], pos[i] + items[i].len()) =~= text.subrange(
                pos[i],
                pos[i] + items[i].len(),
            ));
        } else {
            assert(whole.subrange(text.len() + sep.len() as int, whole.len() as int) =~= x);
        }
    }
    assert forall|i: int| 0 <= i < items2.len() - 1 implies pos2[i] + items2[i].len()
        <= #[trigger] pos2[i + 1] by {
        if i < items.len() - 1 {
        } else {
            assert(i == items.len() - 1);
        }
    }
}

proof fn lemma_joined_positions(items: Seq<Seq<char>>) -> (pos: Seq<int>)
    ensures
        placed_at(joined(items), items, pos),
    decreases items.len(),
{
    if items.len() == 0 {
        Seq::empty()
    } else if items.len() == 1 {
        assert(items[0].subrange(0, items[0].len() as int) =~= items[0]);
        seq![0int]
    } else {
        let init = items.drop_last();
        let p = lemma_joined_positions(init);
        lemma_place_last(joined(init), comma_text(), init, p, items.last());
        assert(init.push(items.last()) =~= items);
        p.push(joined(init).len() + comma_text().len() as int)
    }
}

/// Every item of a list stands in its formatted text as a substring, and
/// the items stand there in the order of the list.
pub proof fn lemma_list_text_contains_items(items: Seq<Seq<char>>)
    ensures
        contains_in_order(list_text(items), items),
{
    if items.len() == 0 {
        assert(placed_at(list_text(items), items, Seq::empty()));
    } else if items.len() == 1 {
        let p = lemma_joined_positions(items);
        assert(placed_at(list_text(items), items, p));
    } else if items.len() == 2 {
        let first = items.drop_last();
        let p = lemma_joined_positions(first);
        lemma_place_last(joined(first), and_text(), first, p, items[1]);
        assert(first.push(items[1]) =~= items);
        assert(placed_at(list_text(items), items, p.push(items[0].len() + and_text().len() as int)));
    } else {
        let init = items.drop_last();
        let p = lemma_joined_positions(init);
        lemma_place_last(joined(init), comma_and_text(), init, p, items.last());
        assert(init.push(items.last()) =~= items);
        assert(placed_at(
            list_text(items),
            items,
            p.push(joined(init).len() + comma_and_text().len() as int),
        ));
    }
}

/// An empty list reads "nothing".
pub proof fn lemma_list_text_empty()
    ensures
        list_text(Seq::empty()) == nothing_text(),
{
}

/// A list of one item reads as that item, unchanged.
pub proof fn lemma_list_text_single(x: Seq<char>)
    ensures
        list_text(seq![x]) == x,
{
}

/// A list of two items reads "x and y", with no comma.
pub proof fn lemma_list_text_pair(x: Seq<char>, y: Seq<char>)
    ensures
        list_text(seq![x, y]) == x + and_text() + y,
{
}

/// A list of three items reads "a, b, and c", with the oxford comma.
pub proof fn lemma_list_text_three(a: Seq<char>, b: Seq<char>, c: Seq<char>)
    ensures
        list_text(seq![a, b, c]) == a + comma_text() + b + comma_and_text() + c,
{
    let items = seq![a, b, c];
    assert(items.drop_last() =~= seq![a, b]);
    assert(seq![a, b].drop_last() =~= seq![a]);
    assert(joined(seq![a]) == a);
    assert(joined(seq![a, b]) == a + comma_text() + b);
}

} // verus!
