//! The text form of a list of entries, and the law that parsing reads it
//! back field for field.
use crate::config::{
    classify, entry_header, first_index, key_name, key_param, key_vmlinux, lines_of, parse_lines,
    parse_spec, render_view, trim_back, trim_field, trim_front, unquote, widen, EntryView,
    LineView,
};
use vstd::prelude::*;

verus! {

/// The bytes of a field's value: name, kernel path, parameters.
pub struct EntryText {
    pub name: Seq<u8>,
    pub vmlinux: Seq<u8>,
    pub param: Seq<u8>,
}

/// A value that a quoted line carries back: not empty, with no line feed.
pub open spec fn valid_value(v: Seq<u8>) -> bool {
    v.len() >= 1 && forall|i: int| 0 <= i < v.len() ==> v[i] != 0x0Au8
}

/// A line `key = 'value'`.
pub open spec fn field_line(key: Seq<u8>, v: Seq<u8>) -> Seq<u8> {
    key + seq![0x20u8, 0x3Du8, 0x20u8, 0x27u8] + v + seq![0x27u8]
}

/// The four lines of one entry.
pub open spec fn entry_lines(e: EntryText) -> Seq<Seq<u8>> {
    seq![
        entry_header(),
        field_line(key_name(), e.name),
        field_line(key_vmlinux(), e.vmlinux),
        field_line(key_param(), e.param),
    ]
}

/// The lines of a list of entries, in order.
pub open spec fn config_lines(es: Seq<EntryText>) -> Seq<Seq<u8>>
    decreases es.len(),
{
    if es.len() == 0 {
        seq![]
    } else {
        config_lines(es.drop_last()) + entry_lines(es.last())
    }
}

/// Lines joined into a file, each ended by a line feed.
pub open spec fn join_lines(ls: Seq<Seq<u8>>) -> Seq<u8>
    decreases ls.len(),
{
    if ls.len() == 0 {
        seq![]
    } else {
        ls[0] + seq![0x0Au8] + join_lines(ls.drop_first())
    }
}

/// The file that writes out a list of entries.
pub open spec fn config_text(es: Seq<EntryText>) -> Seq<u8> {
    join_lines(config_lines(es))
}

/// The entry that a written entry reads back as.
pub open spec fn text_view(e: EntryText) -> EntryView {
    EntryView {
        name: Some(widen(e.name)),
        vmlinux: Some(widen(e.vmlinux)),
        param: Some(widen(e.param)),
    }
}

/// No `c` in `a`.
pub open spec fn lacks(a: Seq<u8>, c: u8) -> bool {
    forall|i: int| 0 <= i < a.len() ==> a[i] != c
}

proof fn lemma_first_index_concat(a: Seq<u8>, b: Seq<u8>, c: u8)
    requires
        lacks(a, c),
        b.len() > 0,
        b[0] == c,
    ensures
        first_index(a + b, c) == Some(a.len() as int),
    decreases a.len(),
{
    if a.len() == 0 {
        assert(a + b =~= b);
    } else {
        assert((a + b).drop_first() =~= a.drop_first() + b);
        lemma_first_index_concat(a.drop_first(), b, c);
    }
}

proof fn lemma_lines_of_join(ls: Seq<Seq<u8>>)
    requires
        forall|i: int| 0 <= i < ls.len() ==> lacks(#[trigger] ls[i], 0x0Au8),
    ensures
        lines_of(join_lines(ls)) == ls.push(Seq::<u8>::empty()),
    decreases ls.len(),
{
    if ls.len() == 0 {
        assert(first_index(Seq::<u8>::empty(), 0x0Au8) is None);
        assert(lines_of(Seq::<u8>::empty()) =~= ls.push(Seq::<u8>::empty()));
    } else {
        let rest = join_lines(ls.drop_first());
        let t = ls[0] + seq![0x0Au8] + rest;
        assert(t =~= ls[0] + (seq![0x0Au8] + rest));
        lemma_first_index_concat(ls[0], seq![0x0Au8] + rest, 0x0Au8);
        assert(t.take(ls[0].len() as int) =~= ls[0]);
        assert(t.skip(ls[0].len() + 1int) =~= rest);
        assert forall|i: int| 0 <= i < ls.drop_first().len() implies lacks(
            #[trigger] ls.drop_first()[i],
            0x0Au8,
        ) by {
            assert(ls.drop_first()[i] == ls[i + 1]);
        }
        lemma_lines_of_join(ls.drop_first());
        assert(seq![ls[0]] + ls.drop_first().push(Seq::<u8>::empty()) =~= ls.push(
            Seq::<u8>::empty(),
        ));
    }
}

proof fn lemma_field_line_classify(key: Seq<u8>, v: Seq<u8>)
    requires
        valid_value(v),
        key == key_name() || key == key_vmlinux() || key == key_param(),
    ensures
        classify(field_line(key, v)) == (if key == key_name() {
            LineView::Name(widen(v))
        } else if key == key_vmlinux() {
            LineView::Vmlinux(widen(v))
        } else {
            LineView::Param(widen(v))
        }),
        lacks(field_line(key, v), 0x0Au8),
{
    let line = field_line(key, v);
    let k = key.len() as int;
    assert(line.len() != entry_header().len());
    assert(lacks(key, 0x3Du8));
    assert(line =~= key + (seq![0x20u8, 0x3Du8, 0x20u8, 0x27u8] + v + seq![0x27u8]).skip(0));
    assert(line =~= (key + seq![0x20u8]) + (seq![0x3Du8, 0x20u8, 0x27u8] + v + seq![0x27u8]));
    assert(lacks(key + seq![0x20u8], 0x3Du8));
    lemma_first_index_concat(
        key + seq![0x20u8],
        seq![0x3Du8, 0x20u8, 0x27u8] + v + seq![0x27u8],
        0x3Du8,
    );
    let left = line.take(k + 1);
    let right = line.skip(k + 2);
    assert(left =~= key + seq![0x20u8]);
    assert(trim_front(left) == left);
    assert(left.drop_last() =~= key);
    assert(trim_back(key) == key);
    assert(trim_back(left) == key);
    assert(unquote(key) == key);
    assert(trim_field(left) == key);
    let q = seq![0x27u8] + v + seq![0x27u8];
    assert(right =~= seq![0x20u8] + q);
    assert(right.drop_first() =~= q);
    assert(trim_front(q) == q);
    assert(trim_front(right) == q);
    assert(trim_back(q) == q);
    assert(q.subrange(1, q.len() - 1) =~= v);
    assert(trim_field(right) == v);
    assert forall|i: int| 0 <= i < line.len() implies line[i] != 0x0Au8 by {
        if k + 4 <= i < k + 4 + v.len() {
            assert(line[i] == v[i - k - 4]);
        }
    }
}

/// Round trip: a list of entries whose values are non-empty and free of
/// line feeds, written out with quoted values, parses back to the same
/// entries in the same order, and each entry is shown with its values as
/// they were written.
pub proof fn lemma_round_trip(es: Seq<EntryText>)
    requires
        forall|i: int|
            0 <= i < es.len() ==> valid_value((#[trigger] es[i]).name) && valid_value(
                es[i].vmlinux,
            ) && valid_value(es[i].param),
    ensures
        parse_spec(config_text(es)) == Some(es.map_values(|e: EntryText| text_view(e))),
        forall|i: int|
            0 <= i < es.len() ==> render_view(text_view(#[trigger] es[i])) == widen(es[i].name)
                + seq![0x40u16, 0x5Bu16] + widen(es[i].vmlinux) + seq![
                0x5Du16,
                0x20u16,
                0x2Du16,
                0x2Du16,
                0x20u16,
            ] + widen(es[i].param),
    decreases es.len(),
{
    lemma_config_lines(es);
    let ls = config_lines(es);
    lemma_lines_of_join(ls);
    assert(ls.push(Seq::<u8>::empty()).drop_last() =~= ls);
    assert(classify(Seq::<u8>::empty()) == LineView::Blank);
}

proof fn lemma_config_lines(es: Seq<EntryText>)
    requires
        forall|i: int|
            0 <= i < es.len() ==> valid_value((#[trigger] es[i]).name) && valid_value(
                es[i].vmlinux,
            ) && valid_value(es[i].param),
    ensures
        parse_lines(config_lines(es)) == Some(es.map_values(|e: EntryText| text_view(e))),
        forall|i: int|
            0 <= i < config_lines(es).len() ==> lacks(#[trigger] config_lines(es)[i], 0x0Au8),
    decreases es.len(),
{
    if es.len() == 0 {
        assert(es.map_values(|e: EntryText| text_view(e)) =~= Seq::<EntryView>::empty());
    } else {
        let init = es.drop_last();
        let e = es.last();
        assert forall|i: int| 0 <= i < init.len() implies valid_value(
            (#[trigger] init[i]).name,
        ) && valid_value(init[i].vmlinux) && valid_value(init[i].param) by {
            assert(init[i] == es[i]);
        }
        lemma_config_lines(init);
        assert(valid_value(es[es.len() - 1].name));
        lemma_field_line_classify(key_name(), e.name);
        lemma_field_line_classify(key_vmlinux(), e.vmlinux);
        lemma_field_line_classify(key_param(), e.param);
        let pre = config_lines(init);
        let el = entry_lines(e);
        let all = pre + el;
        assert(all.drop_last() =~= pre + el.take(3));
        assert((pre + el.take(3)).drop_last() =~= pre + el.take(2));
        assert((pre + el.take(2)).drop_last() =~= pre + el.take(1));
        assert((pre + el.take(1)).drop_last() =~= pre);
        assert(classify(entry_header()) == LineView::NewEntry);
        let before = init.map_values(|x: EntryText| text_view(x));
        assert(es.map_values(|x: EntryText| text_view(x)) =~= before.push(text_view(e)));
        let s1 = before.push(crate::config::empty_entry());
        let s2 = s1.update(s1.len() - 1, EntryView { name: Some(widen(e.name)), ..s1.last() });
        let s3 = s2.update(
            s2.len() - 1,
            EntryView { vmlinux: Some(widen(e.vmlinux)), ..s2.last() },
        );
        let s4 = s3.update(s3.len() - 1, EntryView { param: Some(widen(e.param)), ..s3.last() });
        assert(s4 =~= before.push(text_view(e)));
        assert(config_lines(es) == all);
        assert((pre + el.take(1)).last() == entry_header());
        assert(parse_lines(pre + el.take(1)) == Some(s1));
        assert((pre + el.take(2)).last() == field_line(key_name(), e.name));
        assert(parse_lines(pre + el.take(2)) == Some(s2));
        assert((pre + el.take(3)).last() == field_line(key_vmlinux(), e.vmlinux));
        assert(parse_lines(pre + el.take(3)) == Some(s3));
        assert(all.last() == field_line(key_param(), e.param));
        assert(parse_lines(all) == Some(s4));
        assert forall|i: int| 0 <= i < all.len() implies lacks(#[trigger] all[i], 0x0Au8) by {
            if i >= pre.len() {
                assert(all[i] == el[i - pre.len()]);
                if i == pre.len() {
                    assert(lacks(entry_header(), 0x0Au8));
                }
            } else {
                assert(all[i] == pre[i]);
            }
        }
    }
}

} // verus!
