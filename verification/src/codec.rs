//! The checklist codec: between a Markdown document and a sequence of items.
//!
//! A document is its lines, split on `'\n'` (a trailing newline does not
//! open a final empty line).  The first line is the title and is discarded
//! on decoding; every remaining non-empty line is one item.  An item line
//! is the six characters `- [X] ` or `- [ ] ` followed by the task text,
//! taken verbatim to the end of the line.  Malformed short lines are
//! tolerated rather than rejected: a line with no character at the flag
//! position decodes as not done, and a line that ends before the text
//! position decodes with empty text.  Encoding always emits the fixed
//! header line `# TODO` and a blank line, then one line per item.

use crate::item::Item;
use crate::item::ItemModel;
use vstd::prelude::*;
use vstd::string::StrSliceExecFns;
use vstd::string::StringExecFns;

verus! {

/// The fixed document header: the title line `# TODO` and the blank line
/// after it.
pub open spec fn header() -> Seq<char> {
    seq!['#', ' ', 'T', 'O', 'D', 'O', '\n', '\n']
}

/// The encoded form of one item: `- [X] text` for a done item, `- [ ] text`
/// otherwise.
pub open spec fn line_of(m: ItemModel) -> Seq<char> {
    seq!['-', ' ', '[', (if m.done { 'X' } else { ' ' }), ']', ' '] + m.text
}

/// What decoding makes of one line: the item is done exactly when the
/// character at position 3 is `X`, and its text is everything from
/// position 6 on.  A line too short for either position degrades to
/// not done, or to empty text.
pub open spec fn item_of_line(l: Seq<char>) -> ItemModel {
    ItemModel {
        done: l.len() > 3 && l[3] == 'X',
        text: if l.len() >= 6 {
            l.subrange(6, l.len() as int)
        } else {
            Seq::<char>::empty()
        },
    }
}

/// The lines of a text, split on `'\n'`.  A trailing newline closes the
/// last line without opening an empty one, so the empty text has no lines
/// at all.
pub open spec fn lines_of(s: Seq<char>) -> Seq<Seq<char>>
    decreases s.len(),
{
    if s.len() == 0 {
        Seq::<Seq<char>>::empty()
    } else if s[0] == '\n' {
        seq![Seq::<char>::empty()] + lines_of(s.drop_first())
    } else {
        let rest = lines_of(s.drop_first());
        if rest.len() == 0 {
            seq![seq![s[0]]]
        } else {
            seq![seq![s[0]] + rest[0]] + rest.drop_first()
        }
    }
}

/// The items of a sequence of lines: every empty line is skipped, every
/// other line is one item, in order.
pub open spec fn items_of_lines(ls: Seq<Seq<char>>) -> Seq<ItemModel>
    decreases ls.len(),
{
    if ls.len() == 0 {
        Seq::<ItemModel>::empty()
    } else if ls[0].len() == 0 {
        items_of_lines(ls.drop_first())
    } else {
        seq![item_of_line(ls[0])] + items_of_lines(ls.drop_first())
    }
}

/// What decoding a whole document yields: the items of all its lines but
/// the first, which is the title.  A document with no lines at all has no
/// items.
pub open spec fn decode_model(s: Seq<char>) -> Seq<ItemModel> {
    let ls = lines_of(s);
    if ls.len() == 0 {
        Seq::<ItemModel>::empty()
    } else {
        items_of_lines(ls.drop_first())
    }
}

/// The item lines of an encoded document: one line per item, each closed
/// by a newline.
pub open spec fn encode_items(ms: Seq<ItemModel>) -> Seq<char>
    decreases ms.len(),
{
    if ms.len() == 0 {
        Seq::<char>::empty()
    } else {
        line_of(ms[0]) + seq!['\n'] + encode_items(ms.drop_first())
    }
}

/// What encoding a list of items yields: the fixed header, then one line
/// per item.
pub open spec fn encode_model(ms: Seq<ItemModel>) -> Seq<char> {
    header() + encode_items(ms)
}

/// Peeling the first line off a non-empty text: everything up to the first
/// newline (or to the end, if there is none) is one line, and the lines of
/// whatever follows that newline come after it.
pub proof fn lemma_lines_first(s: Seq<char>, i: int)
    requires
        s.len() > 0,
        0 <= i <= s.len(),
        forall|j: int| 0 <= j < i ==> s[j] != '\n',
        i < s.len() ==> s[i] == '\n',
    ensures
        lines_of(s) == seq![s.take(i)] + (if i == s.len() {
            Seq::<Seq<char>>::empty()
        } else {
            lines_of(s.skip(i + 1))
        }),
    decreases s.len(),
{
    if s[0] == '\n' {
        assert(i == 0);
        assert(s.take(0) =~= Seq::<char>::empty());
        assert(s.skip(1) =~= s.drop_first());
        assert(lines_of(s) =~~= seq![s.take(0)] + lines_of(s.skip(1)));
    } else {
        assert(i >= 1);
        if s.len() == 1 {
            assert(i == 1);
            assert(s.take(1) =~= seq![s[0]]);
            assert(s.drop_first().len() == 0);
            assert(lines_of(s.drop_first()) == Seq::<Seq<char>>::empty());
            assert(lines_of(s) =~~= seq![s.take(1)]);
        } else {
            let t = s.drop_first();
            assert(forall|j: int| 0 <= j < i - 1 ==> t[j] != '\n');
            lemma_lines_first(t, i - 1);
            assert(seq![s[0]] + t.take(i - 1) =~= s.take(i));
            if i == s.len() {
                assert(lines_of(t) == seq![t.take(i - 1)]);
                assert(lines_of(s) =~~= seq![s.take(i)]);
            } else {
                assert(t.skip(i) =~= s.skip(i + 1));
                assert(lines_of(t)[0] == t.take(i - 1));
                assert(lines_of(s) =~~= seq![s.take(i)] + lines_of(s.skip(i + 1)));
            }
        }
    }
}

/// Appending one line to a line sequence appends its item, or nothing if
/// the line is empty.
pub proof fn lemma_items_of_lines_push(ls: Seq<Seq<char>>, l: Seq<char>)
    ensures
        items_of_lines(ls.push(l)) == items_of_lines(ls) + (if l.len() == 0 {
            Seq::<ItemModel>::empty()
        } else {
            seq![item_of_line(l)]
        }),
    decreases ls.len(),
{
    if ls.len() == 0 {
        assert(ls.push(l)[0] == l);
        assert(ls.push(l).drop_first() =~= Seq::<Seq<char>>::empty());
        assert(items_of_lines(ls.push(l).drop_first()) == Seq::<ItemModel>::empty());
        assert(items_of_lines(ls.push(l)) =~~= items_of_lines(ls) + (if l.len() == 0 {
            Seq::<ItemModel>::empty()
        } else {
            seq![item_of_line(l)]
        }));
    } else {
        lemma_items_of_lines_push(ls.drop_first(), l);
        assert(ls.push(l)[0] == ls[0]);
        assert(ls.push(l).drop_first() =~= ls.drop_first().push(l));
        assert(items_of_lines(ls.push(l)) =~~= items_of_lines(ls) + (if l.len() == 0 {
            Seq::<ItemModel>::empty()
        } else {
            seq![item_of_line(l)]
        }));
    }
}

/// Appending one item to an item sequence appends its line and a newline.
pub proof fn lemma_encode_items_push(ms: Seq<ItemModel>, m: ItemModel)
    ensures
        encode_items(ms.push(m)) == encode_items(ms) + line_of(m) + seq!['\n'],
    decreases ms.len(),
{
    if ms.len() == 0 {
        assert(ms.push(m)[0] == m);
        assert(ms.push(m).drop_first() =~= Seq::<ItemModel>::empty());
        assert(encode_items(ms.push(m).drop_first()) == Seq::<char>::empty());
        assert(encode_items(ms.push(m)) =~~= encode_items(ms) + line_of(m) + seq!['\n']);
    } else {
        lemma_encode_items_push(ms.drop_first(), m);
        assert(ms.push(m)[0] == ms[0]);
        assert(ms.push(m).drop_first() =~= ms.drop_first().push(m));
        assert(encode_items(ms.push(m)) =~~= encode_items(ms) + line_of(m) + seq!['\n']);
    }
}

/// Decodes one checklist line into an item, tolerating short lines as
/// [`item_of_line`] describes.
pub fn parse_line(line: &str) -> (item: Item)
    ensures
        item@ == item_of_line(line@),
{
    let n = line.unicode_len();
    let done = n > 3 && line.get_char(3) == 'X';
    let todo = if n >= 6 {
        String::from_str(line.substring_char(6, n))
    } else {
        String::new()
    };
    Item::new(todo, done)
}

/// Encodes one item as its checklist line, without the closing newline.
pub fn write_line(item: &Item) -> (line: String)
    ensures
        line@ == line_of(item@),
{
    let mut line = String::from_str("- [");
    if item.is_done() {
        line.append("X");
    } else {
        line.append(" ");
    }
    line.append("] ");
    line.append(item.get_todo());
    proof {
        reveal_strlit("- [");
        reveal_strlit("X");
        reveal_strlit(" ");
        reveal_strlit("] ");
        assert(line@ =~= line_of(item@));
    }
    line
}

/// The position of the first newline at or after `from`, or the length of
/// the text if there is none.
fn find_newline(s: &str, from: usize) -> (i: usize)
    requires
        from <= s@.len(),
    ensures
        from <= i <= s@.len(),
        forall|j: int| from <= j < i ==> s@[j] != '\n',
        i < s@.len() ==> s@[i as int] == '\n',
{
    let n = s.unicode_len();
    let mut i = from;
    while i < n
        invariant
            from <= i <= n,
            forall|j: int| from <= j < i ==> s@[j] != '\n',
        decreases n - i,
    {
        if s.get_char(i) == '\n' {
            return i;
        }
        i = i + 1;
    }
    i
}

/// Splits a text into its lines, as [`lines_of`] describes them.
pub fn split_lines(s: &str) -> (lines: Vec<String>)
    ensures
        lines.deep_view() == lines_of(s@),
{
    let mut lines: Vec<String> = Vec::new();
    let n = s.unicode_len();
    let mut start: usize = 0;
    proof {
        assert(s@.skip(0) =~= s@);
        assert(lines.deep_view() =~= Seq::<Seq<char>>::empty());
    }
    while start < n
        invariant
            start <= n,
            lines_of(s@) == lines.deep_view() + lines_of(s@.skip(start as int)),
        decreases n - start,
    {
        let i = find_newline(s, start);
        let line = String::from_str(s.substring_char(start, i));
        proof {
            let t = s@.skip(start as int);
            assert(forall|j: int| 0 <= j < i - start ==> t[j] != '\n');
            lemma_lines_first(t, i - start);
            assert(t.take(i - start) =~= s@.subrange(start as int, i as int));
        }
        let ghost before = lines.deep_view();
        lines.push(line);
        proof {
            assert(lines.deep_view() =~= before + seq![line@]);
            if i < n {
                assert(s@.skip(start as int).skip(i - start + 1) =~= s@.skip(i as int + 1));
            }
        }
        if i == n {
            start = n;
            proof {
                assert(s@.skip(n as int).len() == 0);
            }
        } else {
            start = i + 1;
        }
    }
    proof {
        assert(s@.skip(n as int).len() == 0);
        assert(lines_of(s@) =~= lines.deep_view());
    }
    lines
}

/// Decodes a whole document: the first line is discarded as the title,
/// empty lines are skipped, and every other line is one item, in order.
pub fn decode(text: &str) -> (items: Vec<Item>)
    ensures
        items.deep_view() == decode_model(text@),
{
    let lines = split_lines(text);
    let mut items: Vec<Item> = Vec::new();
    proof {
        assert(items.deep_view() =~= Seq::<ItemModel>::empty());
    }
    if lines.len() == 0 {
        return items;
    }
    let mut idx: usize = 1;
    proof {
        assert(lines.deep_view().subrange(1, 1) =~= Seq::<Seq<char>>::empty());
    }
    while idx < lines.len()
        invariant
            1 <= idx <= lines.len(),
            items.deep_view() == items_of_lines(lines.deep_view().subrange(1, idx as int)),
        decreases lines.len() - idx,
    {
        let line: &String = &lines[idx];
        let ghost before = items.deep_view();
        if !line.as_str().is_empty() {
            let item = parse_line(line.as_str());
            items.push(item);
            proof {
                assert(items.deep_view() =~= before + seq![item@]);
            }
        }
        proof {
            let all = lines.deep_view();
            assert(all[idx as int] == lines@[idx as int]@);
            assert(all.subrange(1, idx as int + 1) =~= all.subrange(1, idx as int).push(
                all[idx as int],
            ));
            lemma_items_of_lines_push(all.subrange(1, idx as int), all[idx as int]);
        }
        idx = idx + 1;
    }
    proof {
        let all = lines.deep_view();
        assert(all.subrange(1, all.len() as int) =~= all.drop_first());
    }
    items
}

/// Encodes a list of items as a whole document: the fixed header, then one
/// checklist line per item.
pub fn encode(items: &Vec<Item>) -> (text: String)
    ensures
        text@ == encode_model(items.deep_view()),
{
    let mut text = String::from_str("# TODO\n\n");
    proof {
        reveal_strlit("# TODO\n\n");
        assert(text@ =~= header());
        assert(items.deep_view().take(0) =~= Seq::<ItemModel>::empty());
        assert(text@ =~= header() + encode_items(items.deep_view().take(0)));
    }
    let mut idx: usize = 0;
    while idx < items.len()
        invariant
            idx <= items.len(),
            text@ == header() + encode_items(items.deep_view().take(idx as int)),
        decreases items.len() - idx,
    {
        let line = write_line(&items[idx]);
        text.append(line.as_str());
        text.append("\n");
        proof {
            reveal_strlit("\n");
            let all = items.deep_view();
            assert(all[idx as int] == items@[idx as int]@);
            assert(all.take(idx as int + 1) =~= all.take(idx as int).push(all[idx as int]));
            lemma_encode_items_push(all.take(idx as int), all[idx as int]);
            assert(text@ =~= header() + encode_items(all.take(idx as int + 1)));
        }
        idx = idx + 1;
    }
    proof {
        assert(items.deep_view().take(items.len() as int) =~= items.deep_view());
    }
    text
}

/// Law: decoding an item's encoded line gives the item back, whatever its
/// text and flag.
pub proof fn lemma_parse_item_line(m: ItemModel)
    ensures
        item_of_line(line_of(m)) == m,
{
    let l = line_of(m);
    assert(l.len() == 6 + m.text.len());
    assert(l[3] == (if m.done {
        'X'
    } else {
        ' '
    }));
    assert(l.subrange(6, l.len() as int) =~= m.text);
    assert(item_of_line(l) =~~= m);
}

/// The lines of an encoded item list: one line per item, in order, as long
/// as no item's text holds a newline of its own.
pub proof fn lemma_lines_of_encode_items(ms: Seq<ItemModel>)
    requires
        forall|k: int| 0 <= k < ms.len() ==> !ms[k].text.contains('\n'),
    ensures
        lines_of(encode_items(ms)) == Seq::new(ms.len(), |k: int| line_of(ms[k])),
    decreases ms.len(),
{
    if ms.len() == 0 {
        assert(lines_of(encode_items(ms)) =~= Seq::new(ms.len(), |k: int| line_of(ms[k])));
    } else {
        let s = encode_items(ms);
        let l0 = line_of(ms[0]);
        let i = l0.len() as int;
        assert(s =~= l0 + seq!['\n'] + encode_items(ms.drop_first()));
        assert forall|j: int| 0 <= j < i implies s[j] != '\n' by {
            assert(s[j] == l0[j]);
            if j >= 6 {
                assert(l0[j] == ms[0].text[j - 6]);
                if l0[j] == '\n' {
                    assert(ms[0].text.contains('\n'));
                }
            }
        }
        assert(s[i] == '\n');
        lemma_lines_first(s, i);
        assert(s.take(i) =~= l0);
        assert(s.skip(i + 1) =~= encode_items(ms.drop_first()));
        assert(forall|k: int|
            0 <= k < ms.drop_first().len() ==> !ms.drop_first()[k].text.contains('\n'));
        lemma_lines_of_encode_items(ms.drop_first());
        assert(lines_of(s) =~= Seq::new(ms.len(), |k: int| line_of(ms[k])));
    }
}

/// The items of a sequence of encoded item lines are the items themselves.
pub proof fn lemma_items_of_item_lines(ms: Seq<ItemModel>)
    ensures
        items_of_lines(Seq::new(ms.len(), |k: int| line_of(ms[k]))) == ms,
    decreases ms.len(),
{
    let ls = Seq::new(ms.len(), |k: int| line_of(ms[k]));
    if ms.len() == 0 {
        assert(items_of_lines(ls) =~= ms);
    } else {
        lemma_items_of_item_lines(ms.drop_first());
        assert(ls[0] == line_of(ms[0]));
        assert(ls[0].len() == 6 + ms[0].text.len());
        assert(ls.drop_first() =~= Seq::new(
            ms.drop_first().len(),
            |k: int| line_of(ms.drop_first()[k]),
        ));
        lemma_parse_item_line(ms[0]);
        assert(items_of_lines(ls) =~= seq![ms[0]] + ms.drop_first());
        assert(seq![ms[0]] + ms.drop_first() =~= ms);
    }
}

/// Law: decoding an encoded list gives the list back, as long as no item's
/// text holds a newline of its own (a text with a newline could not sit on
/// one line in the first place).
pub proof fn lemma_decode_encode(ms: Seq<ItemModel>)
    requires
        forall|k: int| 0 <= k < ms.len() ==> !ms[k].text.contains('\n'),
    ensures
        decode_model(encode_model(ms)) == ms,
{
    let doc = encode_model(ms);
    assert(doc.len() >= 8);
    assert(forall|j: int| 0 <= j < 8 ==> doc[j] == header()[j]);
    assert(doc[6] == '\n');
    lemma_lines_first(doc, 6);
    let rest = doc.skip(7);
    assert(rest[0] == doc[7]);
    assert(rest[0] == '\n');
    lemma_lines_first(rest, 0);
    assert(rest.skip(1) =~= encode_items(ms));
    lemma_lines_of_encode_items(ms);
    let item_lines = Seq::new(ms.len(), |k: int| line_of(ms[k]));
    assert(lines_of(doc) =~= seq![doc.take(6)] + (seq![rest.take(0)] + item_lines));
    let body = lines_of(doc).drop_first();
    assert(body =~= seq![rest.take(0)] + item_lines);
    assert(body[0].len() == 0);
    assert(body.drop_first() =~= item_lines);
    lemma_items_of_item_lines(ms);
    assert(decode_model(doc) == items_of_lines(body));
}

/// Law: a single-item document survives a decode-encode round trip
/// exactly, its item line included.
pub proof fn lemma_single_item_round_trip(m: ItemModel)
    requires
        !m.text.contains('\n'),
    ensures
        encode_model(decode_model(encode_model(seq![m]))) == encode_model(seq![m]),
{
    assert(seq![m][0] == m);
    lemma_decode_encode(seq![m]);
}

/// Law: blank lines contribute nothing to decoding, so a document's items
/// are exactly the items of its non-blank body lines.
pub proof fn lemma_items_of_lines_skip_blanks(ls: Seq<Seq<char>>)
    ensures
        items_of_lines(ls.filter(|l: Seq<char>| l.len() > 0)) == items_of_lines(ls),
    decreases ls.len(),
{
    reveal(Seq::filter);
    let pred = |l: Seq<char>| l.len() > 0;
    if ls.len() == 0 {
        assert(ls.filter(pred) == ls);
    } else {
        let init = ls.drop_last();
        let last = ls.last();
        lemma_items_of_lines_skip_blanks(init);
        assert(init.push(last) =~= ls);
        lemma_items_of_lines_push(init, last);
        if pred(last) {
            assert(ls.filter(pred) == init.filter(pred).push(last));
            lemma_items_of_lines_push(init.filter(pred), last);
        } else {
            assert(ls.filter(pred) == init.filter(pred));
        }
    }
}

/// Law: decoding sees only the non-blank lines after the title; a document
/// with blank lines between its item lines decodes to the same items as
/// the document without them.
pub proof fn lemma_decode_skips_blank_lines(s: Seq<char>)
    requires
        lines_of(s).len() > 0,
    ensures
        decode_model(s) == items_of_lines(
            lines_of(s).drop_first().filter(|l: Seq<char>| l.len() > 0),
        ),
{
    lemma_items_of_lines_skip_blanks(lines_of(s).drop_first());
}

} // verus!
