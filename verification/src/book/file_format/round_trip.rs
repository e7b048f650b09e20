//! What reading a flattened book gives back: the book, except that a line
//! without text runs gets one empty plain run.
use vstd::prelude::*;

use crate::book::file_format::flatten::{
    book_has_conv, book_has_line, book_line, formats, formatted_text,
};
use crate::book::file_format::{
    condition_map_upto, conv_map_upto, conv_quad_at, get_or_empty, line_item_model, line_map_upto,
    format_rooms, map_get, noun_item_model, noun_map_upto, noun_pair_at, room_num_at, roles_upto,
    rooms_upto, verbs_model,
    verbs_upto, BookFormat,
};
use crate::book::{
    line_model, opt_str, roles_model, Book, ConditionEntry, ConversationEntry, LineEntry, LineModel,
    NounEntry, NounModel, RoomEntry, RoomModel,
};
use crate::formats::aseprite::props::{keys_sorted, lemma_unique_key, lookup};

verus! {

broadcast use vstd::std_specs::btree::group_btree_axioms;

/// The verbs of the first `n` verb items are the book's verbs that these
/// items list.
proof fn lemma_verbs_prefix(book: Book, f: BookFormat, n: int)
    requires
        formats(book, f),
        0 <= n <= f.verbs@.len(),
    ensures
        forall|k: u8|
            #[trigger] verbs_upto(f, n).contains_key(k) <==> exists|i: int|
                0 <= i < n && f.verbs@[i].num == k,
        forall|k: u8|
            #[trigger] verbs_upto(f, n).contains_key(k) ==> book.verbs@.contains_key(k) && verbs_upto(
                f,
                n,
            )[k] == book.verbs@[k].name@,
    decreases n,
{
    if n > 0 {
        lemma_verbs_prefix(book, f, n - 1);
        let item = f.verbs@[n - 1];
        let prev = verbs_upto(f, n - 1);
        assert(verbs_upto(f, n) == prev.insert(item.num, item.name@));
        assert(book.verbs@.contains_key(item.num));
        assert(item.name@ == book.verbs@[item.num].name@);
        assert forall|k: u8|
            #[trigger] verbs_upto(f, n).contains_key(k) <==> exists|i: int|
                0 <= i < n && f.verbs@[i].num == k by {
            if verbs_upto(f, n).contains_key(k) && k != item.num {
                assert(prev.contains_key(k));
                let i = choose|i: int| 0 <= i < n - 1 && f.verbs@[i].num == k;
                assert(0 <= i < n && f.verbs@[i].num == k);
            }
            if verbs_upto(f, n).contains_key(k) && k == item.num {
                assert(0 <= n - 1 < n && f.verbs@[n - 1].num == k);
            }
            if exists|i: int| 0 <= i < n && f.verbs@[i].num == k {
                let i = choose|i: int| 0 <= i < n && f.verbs@[i].num == k;
                if i < n - 1 {
                    assert(verbs_upto(f, n - 1).contains_key(k));
                }
            }
        }
    }
}

/// Reading the verbs of a flattened book gives the book's verbs.
proof fn lemma_verbs_read(book: Book, f: BookFormat)
    requires
        formats(book, f),
    ensures
        verbs_upto(f, f.verbs@.len() as int) == verbs_model(book.verbs),
{
    let n = f.verbs@.len() as int;
    lemma_verbs_prefix(book, f, n);
    let m = verbs_upto(f, n);
    assert forall|k: u8| #[trigger] m.contains_key(k) <==> verbs_model(book.verbs).contains_key(k) by {
        if book.verbs@.contains_key(k) {
            let i = choose|i: int| 0 <= i < f.verbs@.len() && (#[trigger] f.verbs@[i]).num == k;
            assert(m.contains_key(k));
        }
    }
    assert(m =~= verbs_model(book.verbs));
}

/// The roles of the first `n` role items are the book's first `n` roles.
proof fn lemma_roles_prefix(book: Book, f: BookFormat, n: int)
    requires
        formats(book, f),
        book.wf(),
        0 <= n <= f.roles@.len(),
    ensures
        forall|k: Seq<char>|
            #[trigger] roles_upto(f, n).contains_key(k) <==> exists|i: int|
                0 <= i < n && book.roles@[i].0@ == k,
        forall|i: int|
            0 <= i < n ==> roles_upto(f, n)[#[trigger] book.roles@[i].0@] == (
                book.roles@[i].1.name@,
                book.roles@[i].1.short_name@,
            ),
    decreases n,
{
    if n > 0 {
        lemma_roles_prefix(book, f, n - 1);
        let item = f.roles@[n - 1];
        let key = book.roles@[n - 1].0@;
        assert(item.raw@ == key);
        let prev = roles_upto(f, n - 1);
        assert(roles_upto(f, n) == prev.insert(key, (item.name@, item.short_name@)));
        let rm = roles_model(book.roles@);
        assert forall|k: Seq<char>|
            #[trigger] roles_upto(f, n).contains_key(k) <==> exists|i: int|
                0 <= i < n && book.roles@[i].0@ == k by {
            if roles_upto(f, n).contains_key(k) && k != key {
                assert(prev.contains_key(k));
                let i = choose|i: int| 0 <= i < n - 1 && book.roles@[i].0@ == k;
                assert(0 <= i < n && book.roles@[i].0@ == k);
            }
            if roles_upto(f, n).contains_key(k) && k == key {
                assert(0 <= n - 1 < n && book.roles@[n - 1].0@ == k);
            }
            if exists|i: int| 0 <= i < n && book.roles@[i].0@ == k {
                let i = choose|i: int| 0 <= i < n && book.roles@[i].0@ == k;
                if i < n - 1 {
                    assert(roles_upto(f, n - 1).contains_key(k));
                }
            }
        }
        assert forall|i: int| 0 <= i < n implies roles_upto(f, n)[#[trigger] book.roles@[i].0@] == (
            book.roles@[i].1.name@,
            book.roles@[i].1.short_name@,
        ) by {
            if i < n - 1 && book.roles@[i].0@ == key {
                assert(rm[i].0 == rm[n - 1].0);
                lemma_unique_key(rm, i, n - 1);
            }
        }
    }
}

/// Reading the roles of a flattened book gives the book's roles.
proof fn lemma_roles_read(book: Book, f: BookFormat)
    requires
        formats(book, f),
        book.wf(),
    ensures
        forall|k: Seq<char>|
            #[trigger] map_get(roles_upto(f, f.roles@.len() as int), k) == lookup(
                roles_model(book.roles@),
                k,
            ),
{
    let n = f.roles@.len() as int;
    lemma_roles_prefix(book, f, n);
    let rm = roles_model(book.roles@);
    assert forall|i: int| 0 <= i < rm.len() implies (#[trigger] rm[i]).0 == book.roles@[i].0@ && rm[i].1 == (
        book.roles@[i].1.name@,
        book.roles@[i].1.short_name@,
    ) by {}
    assert forall|k: Seq<char>| #[trigger]
        map_get(roles_upto(f, n), k) == lookup(rm, k) by {
        if exists|i: int| 0 <= i < rm.len() && (#[trigger] rm[i]).0 == k {
            let c = choose|i: int| 0 <= i < rm.len() && (#[trigger] rm[i]).0 == k;
            assert(rm[c].0 == book.roles@[c].0@);
            assert(roles_upto(f, n).contains_key(k));
            assert(roles_upto(f, n)[book.roles@[c].0@] == rm[c].1);
        } else {
            if roles_upto(f, n).contains_key(k) {
                let i = choose|i: int| 0 <= i < n && book.roles@[i].0@ == k;
                assert(rm[i].0 == k);
            }
        }
    }
}

/// A line as a flattened book reads it back: its talker and role as they
/// were, and one empty plain run for a text without runs.
pub open spec fn reread_line(l: LineModel) -> LineModel {
    LineModel { text: formatted_text(l.text), talker: l.talker, role: l.role }
}

/// The conversation numbers of the line item at `i`.
pub open spec fn line_quad(f: BookFormat, i: int) -> (u16, u8, u8, u8) {
    conv_quad_at(f, f.lines@[i].parent_conversation.0 as int)
}

/// The line item at `i` reads back as its line of the book.
proof fn lemma_line_item_model(book: Book, f: BookFormat, i: int)
    requires
        formats(book, f),
        0 <= i < f.lines@.len(),
    ensures
        book_has_line(book, line_quad(f, i), f.lines@[i].num),
        line_item_model(f, i) == reread_line(line_model(book_line(book, line_quad(f, i), f.lines@[i].num))),
{
    let item = f.lines@[i];
    let r = item.role.0 as int;
    assert(f.roles@[r].raw@ == book.roles@[r].0@);
}

/// The lines of the first `n` line items, by conversation and number, are
/// the book's lines that these items list, read back.
proof fn lemma_lines_prefix(book: Book, f: BookFormat, n: int)
    requires
        formats(book, f),
        0 <= n <= f.lines@.len(),
    ensures
        forall|q: (u16, u8, u8, u8)|
            #[trigger] line_map_upto(f, n).contains_key(q) <==> exists|i: int| 0 <= i < n && line_quad(f, i) == q,
        forall|q: (u16, u8, u8, u8), num: u8|
            line_map_upto(f, n).contains_key(q) ==> (#[trigger] line_map_upto(f, n)[q].contains_key(num)
                <==> exists|i: int| 0 <= i < n && line_quad(f, i) == q && f.lines@[i].num == num),
        forall|q: (u16, u8, u8, u8), num: u8|
            line_map_upto(f, n).contains_key(q) && #[trigger] line_map_upto(f, n)[q].contains_key(num)
                ==> book_has_line(book, q, num) && line_map_upto(f, n)[q][num] == reread_line(
                line_model(book_line(book, q, num)),
            ),
    decreases n,
{
    if n > 0 {
        lemma_lines_prefix(book, f, n - 1);
        lemma_line_item_model(book, f, n - 1);
        let prev = line_map_upto(f, n - 1);
        let key = line_quad(f, n - 1);
        let num = f.lines@[n - 1].num;
        let inner = get_or_empty(prev, key).insert(num, line_item_model(f, n - 1));
        let m = line_map_upto(f, n);
        assert(m == prev.insert(key, inner));
        assert forall|q: (u16, u8, u8, u8)| #[trigger] m.contains_key(q) <==> exists|i: int|
            0 <= i < n && line_quad(f, i) == q by {
            if m.contains_key(q) && q != key {
                assert(prev.contains_key(q));
                let i = choose|i: int| 0 <= i < n - 1 && line_quad(f, i) == q;
                assert(0 <= i < n && line_quad(f, i) == q);
            }
            if m.contains_key(q) && q == key {
                assert(0 <= n - 1 < n && line_quad(f, n - 1) == q);
            }
            if exists|i: int| 0 <= i < n && line_quad(f, i) == q {
                let i = choose|i: int| 0 <= i < n && line_quad(f, i) == q;
                if i < n - 1 {
                    assert(prev.contains_key(q));
                }
            }
        }
        assert forall|q: (u16, u8, u8, u8), x: u8|
            m.contains_key(q) implies (#[trigger] m[q].contains_key(x) <==> exists|i: int|
                0 <= i < n && line_quad(f, i) == q && f.lines@[i].num == x) by {
            if q == key {
                if m[q].contains_key(x) && x != num {
                    assert(get_or_empty(prev, key).contains_key(x));
                    assert(prev.contains_key(key));
                    let i = choose|i: int| 0 <= i < n - 1 && line_quad(f, i) == q && f.lines@[i].num == x;
                    assert(0 <= i < n && line_quad(f, i) == q && f.lines@[i].num == x);
                }
                if m[q].contains_key(x) && x == num {
                    assert(0 <= n - 1 < n && line_quad(f, n - 1) == q && f.lines@[n - 1].num == x);
                }
                if exists|i: int| 0 <= i < n && line_quad(f, i) == q && f.lines@[i].num == x {
                    let i = choose|i: int| 0 <= i < n && line_quad(f, i) == q && f.lines@[i].num == x;
                    if i < n - 1 && x != num {
                        assert(prev.contains_key(q));
                        assert(prev[q].contains_key(x));
                    }
                }
            } else {
                assert(m[q] == prev[q]);
                if exists|i: int| 0 <= i < n && line_quad(f, i) == q && f.lines@[i].num == x {
                    let i = choose|i: int| 0 <= i < n && line_quad(f, i) == q && f.lines@[i].num == x;
                    assert(i < n - 1);
                    assert(0 <= i < n - 1 && line_quad(f, i) == q && f.lines@[i].num == x);
                }
                if m[q].contains_key(x) {
                    let i = choose|i: int| 0 <= i < n - 1 && line_quad(f, i) == q && f.lines@[i].num == x;
                    assert(0 <= i < n && line_quad(f, i) == q && f.lines@[i].num == x);
                }
            }
        }
        assert forall|q: (u16, u8, u8, u8), x: u8|
            m.contains_key(q) && #[trigger] m[q].contains_key(x) implies book_has_line(book, q, x)
                && m[q][x] == reread_line(line_model(book_line(book, q, x))) by {
            if q == key {
                if x != num {
                    assert(prev.contains_key(key));
                    assert(prev[q].contains_key(x));
                }
            } else {
                assert(m[q] == prev[q]);
                assert(prev[q].contains_key(x));
            }
        }
    }
}

/// After the first `n` conversation items, the lines left are those of
/// the other conversations, and each conversation has taken its own.
proof fn lemma_convs_prefix(
    book: Book,
    f: BookFormat,
    lines: Map<(u16, u8, u8, u8), Map<u8, LineModel>>,
    n: int,
)
    requires
        formats(book, f),
        0 <= n <= f.conversations@.len(),
    ensures
        ({
            let (rem, cm) = conv_map_upto(f, lines, n);
            &&& forall|q: (u16, u8, u8, u8)|
                #[trigger] rem.contains_key(q) <==> lines.contains_key(q) && !(exists|i: int|
                    0 <= i < n && conv_quad_at(f, i) == q)
            &&& forall|q: (u16, u8, u8, u8)| #[trigger] rem.contains_key(q) ==> rem[q] == lines[q]
            &&& forall|np: (u16, u8)|
                #[trigger] cm.contains_key(np) <==> exists|i: int|
                    0 <= i < n && (conv_quad_at(f, i).0, conv_quad_at(f, i).1) == np
            &&& forall|np: (u16, u8), ck: (u8, u8)|
                cm.contains_key(np) ==> (#[trigger] cm[np].contains_key(ck) <==> exists|i: int|
                    0 <= i < n && conv_quad_at(f, i) == (np.0, np.1, ck.0, ck.1))
            &&& forall|np: (u16, u8), ck: (u8, u8)|
                cm.contains_key(np) && #[trigger] cm[np].contains_key(ck) ==> cm[np][ck] == get_or_empty(
                    lines,
                    (np.0, np.1, ck.0, ck.1),
                )
        }),
    decreases n,
{
    if n > 0 {
        lemma_convs_prefix(book, f, lines, n - 1);
        let (rem0, cm0) = conv_map_upto(f, lines, n - 1);
        let q = conv_quad_at(f, n - 1);
        let np = (q.0, q.1);
        let ck = (q.2, q.3);
        let (rem, cm) = conv_map_upto(f, lines, n);
        assert(rem == rem0.remove(q));
        assert(cm == cm0.insert(np, get_or_empty(cm0, np).insert(ck, get_or_empty(rem0, q))));
        assert(forall|i: int| 0 <= i < n - 1 ==> conv_quad_at(f, i) != q);
        assert(get_or_empty(rem0, q) == get_or_empty(lines, q)) by {
            if lines.contains_key(q) {
                assert(rem0.contains_key(q));
            }
        }
        assert forall|r: (u16, u8, u8, u8)|
            #[trigger] rem.contains_key(r) <==> lines.contains_key(r) && !(exists|i: int|
                0 <= i < n && conv_quad_at(f, i) == r) by {
            if r != q {
                if exists|i: int| 0 <= i < n && conv_quad_at(f, i) == r {
                    let i = choose|i: int| 0 <= i < n && conv_quad_at(f, i) == r;
                    assert(0 <= i < n - 1 && conv_quad_at(f, i) == r);
                }
            } else {
                assert(0 <= n - 1 < n && conv_quad_at(f, n - 1) == r);
            }
        }
        assert forall|p: (u16, u8)|
            #[trigger] cm.contains_key(p) <==> exists|i: int|
                0 <= i < n && (conv_quad_at(f, i).0, conv_quad_at(f, i).1) == p by {
            if cm.contains_key(p) && p != np {
                let i = choose|i: int| 0 <= i < n - 1 && (conv_quad_at(f, i).0, conv_quad_at(f, i).1) == p;
                assert(0 <= i < n && (conv_quad_at(f, i).0, conv_quad_at(f, i).1) == p);
            }
            if cm.contains_key(p) && p == np {
                assert(0 <= n - 1 < n && (conv_quad_at(f, n - 1).0, conv_quad_at(f, n - 1).1) == p);
            }
            if exists|i: int| 0 <= i < n && (conv_quad_at(f, i).0, conv_quad_at(f, i).1) == p {
                let i = choose|i: int| 0 <= i < n && (conv_quad_at(f, i).0, conv_quad_at(f, i).1) == p;
                if i < n - 1 {
                    assert(cm0.contains_key(p));
                }
            }
        }
        assert forall|p: (u16, u8), k: (u8, u8)|
            cm.contains_key(p) implies (#[trigger] cm[p].contains_key(k) <==> exists|i: int|
                0 <= i < n && conv_quad_at(f, i) == (p.0, p.1, k.0, k.1)) by {
            if p == np {
                if cm[p].contains_key(k) && k != ck {
                    assert(cm0.contains_key(p));
                    assert(cm0[p].contains_key(k));
                    let i = choose|i: int| 0 <= i < n - 1 && conv_quad_at(f, i) == (p.0, p.1, k.0, k.1);
                    assert(0 <= i < n && conv_quad_at(f, i) == (p.0, p.1, k.0, k.1));
                }
                if cm[p].contains_key(k) && k == ck {
                    assert(0 <= n - 1 < n && conv_quad_at(f, n - 1) == (p.0, p.1, k.0, k.1));
                }
                if exists|i: int| 0 <= i < n && conv_quad_at(f, i) == (p.0, p.1, k.0, k.1) {
                    let i = choose|i: int| 0 <= i < n && conv_quad_at(f, i) == (p.0, p.1, k.0, k.1);
                    if i < n - 1 && k != ck {
                        assert(cm0.contains_key(p));
                        assert(cm0[p].contains_key(k));
                    }
                }
            } else {
                assert(cm[p] == cm0[p]);
                if exists|i: int| 0 <= i < n && conv_quad_at(f, i) == (p.0, p.1, k.0, k.1) {
                    let i = choose|i: int| 0 <= i < n && conv_quad_at(f, i) == (p.0, p.1, k.0, k.1);
                    assert(0 <= i < n - 1 && conv_quad_at(f, i) == (p.0, p.1, k.0, k.1));
                }
                if cm[p].contains_key(k) {
                    let i = choose|i: int| 0 <= i < n - 1 && conv_quad_at(f, i) == (p.0, p.1, k.0, k.1);
                    assert(0 <= i < n && conv_quad_at(f, i) == (p.0, p.1, k.0, k.1));
                }
            }
        }
        assert forall|p: (u16, u8), k: (u8, u8)|
            cm.contains_key(p) && #[trigger] cm[p].contains_key(k) implies cm[p][k] == get_or_empty(
                lines,
                (p.0, p.1, k.0, k.1),
            ) by {
            if p == np {
                if k != ck {
                    assert(cm0.contains_key(p));
                    assert(cm0[p].contains_key(k));
                }
            } else {
                assert(cm[p] == cm0[p]);
            }
        }
    }
}

/// After the first `n` noun items, the conversations left are those of the
/// other nouns, and each noun has taken its own.
proof fn lemma_nouns_prefix(
    book: Book,
    f: BookFormat,
    convs: Map<(u16, u8), Map<(u8, u8), Map<u8, LineModel>>>,
    n: int,
)
    requires
        formats(book, f),
        0 <= n <= f.nouns@.len(),
    ensures
        ({
            let (rem, nm) = noun_map_upto(f, convs, n);
            &&& forall|p: (u16, u8)|
                #[trigger] rem.contains_key(p) <==> convs.contains_key(p) && !(exists|i: int|
                    0 <= i < n && noun_pair_at(f, i) == p)
            &&& forall|p: (u16, u8)| #[trigger] rem.contains_key(p) ==> rem[p] == convs[p]
            &&& forall|r: u16|
                #[trigger] nm.contains_key(r) <==> exists|i: int| 0 <= i < n && noun_pair_at(f, i).0 == r
            &&& forall|r: u16, x: u8|
                nm.contains_key(r) ==> (#[trigger] nm[r].contains_key(x) <==> exists|i: int|
                    0 <= i < n && noun_pair_at(f, i) == (r, x))
            &&& forall|r: u16, x: u8|
                nm.contains_key(r) && #[trigger] nm[r].contains_key(x) ==> exists|i: int|
                    0 <= i < n && noun_pair_at(f, i) == (r, x) && nm[r][x] == noun_item_model(
                        f,
                        i,
                        get_or_empty(convs, (r, x)),
                    )
        }),
    decreases n,
{
    if n > 0 {
        lemma_nouns_prefix(book, f, convs, n - 1);
        let (rem0, nm0) = noun_map_upto(f, convs, n - 1);
        let p = noun_pair_at(f, n - 1);
        let (rem, nm) = noun_map_upto(f, convs, n);
        let model = noun_item_model(f, n - 1, get_or_empty(rem0, p));
        assert(rem == rem0.remove(p));
        assert(nm == nm0.insert(p.0, get_or_empty(nm0, p.0).insert(p.1, model)));
        assert(forall|i: int| 0 <= i < n - 1 ==> noun_pair_at(f, i) != p);
        assert(get_or_empty(rem0, p) == get_or_empty(convs, p)) by {
            if convs.contains_key(p) {
                assert(rem0.contains_key(p));
            }
        }
        assert forall|t: (u16, u8)|
            #[trigger] rem.contains_key(t) <==> convs.contains_key(t) && !(exists|i: int|
                0 <= i < n && noun_pair_at(f, i) == t) by {
            if t != p {
                if exists|i: int| 0 <= i < n && noun_pair_at(f, i) == t {
                    let i = choose|i: int| 0 <= i < n && noun_pair_at(f, i) == t;
                    assert(0 <= i < n - 1 && noun_pair_at(f, i) == t);
                }
            } else {
                assert(0 <= n - 1 < n && noun_pair_at(f, n - 1) == t);
            }
        }
        assert forall|r: u16|
            #[trigger] nm.contains_key(r) <==> exists|i: int| 0 <= i < n && noun_pair_at(f, i).0 == r by {
            if nm.contains_key(r) && r != p.0 {
                let i = choose|i: int| 0 <= i < n - 1 && noun_pair_at(f, i).0 == r;
                assert(0 <= i < n && noun_pair_at(f, i).0 == r);
            }
            if nm.contains_key(r) && r == p.0 {
                assert(0 <= n - 1 < n && noun_pair_at(f, n - 1).0 == r);
            }
            if exists|i: int| 0 <= i < n && noun_pair_at(f, i).0 == r {
                let i = choose|i: int| 0 <= i < n && noun_pair_at(f, i).0 == r;
                if i < n - 1 {
                    assert(nm0.contains_key(r));
                }
            }
        }
        assert forall|r: u16, x: u8|
            nm.contains_key(r) implies (#[trigger] nm[r].contains_key(x) <==> exists|i: int|
                0 <= i < n && noun_pair_at(f, i) == (r, x)) by {
            if r == p.0 {
                if nm[r].contains_key(x) && x != p.1 {
                    assert(nm0.contains_key(r));
                    assert(nm0[r].contains_key(x));
                    let i = choose|i: int| 0 <= i < n - 1 && noun_pair_at(f, i) == (r, x);
                    assert(0 <= i < n && noun_pair_at(f, i) == (r, x));
                }
                if nm[r].contains_key(x) && x == p.1 {
                    assert(0 <= n - 1 < n && noun_pair_at(f, n - 1) == (r, x));
                }
                if exists|i: int| 0 <= i < n && noun_pair_at(f, i) == (r, x) {
                    let i = choose|i: int| 0 <= i < n && noun_pair_at(f, i) == (r, x);
                    if i < n - 1 && x != p.1 {
                        assert(nm0.contains_key(r));
                        assert(nm0[r].contains_key(x));
                    }
                }
            } else {
                assert(nm[r] == nm0[r]);
                if exists|i: int| 0 <= i < n && noun_pair_at(f, i) == (r, x) {
                    let i = choose|i: int| 0 <= i < n && noun_pair_at(f, i) == (r, x);
                    assert(0 <= i < n - 1 && noun_pair_at(f, i) == (r, x));
                }
                if nm[r].contains_key(x) {
                    let i = choose|i: int| 0 <= i < n - 1 && noun_pair_at(f, i) == (r, x);
                    assert(0 <= i < n && noun_pair_at(f, i) == (r, x));
                }
            }
        }
        assert forall|r: u16, x: u8|
            nm.contains_key(r) && #[trigger] nm[r].contains_key(x) implies exists|i: int|
                0 <= i < n && noun_pair_at(f, i) == (r, x) && nm[r][x] == noun_item_model(
                    f,
                    i,
                    get_or_empty(convs, (r, x)),
                ) by {
            if r == p.0 && x == p.1 {
                assert(nm[r][x] == model);
                assert(0 <= n - 1 < n && noun_pair_at(f, n - 1) == (r, x));
            } else if r == p.0 {
                assert(nm0.contains_key(r));
                assert(nm0[r].contains_key(x));
                let i = choose|i: int|
                    0 <= i < n - 1 && noun_pair_at(f, i) == (r, x) && nm0[r][x] == noun_item_model(
                        f,
                        i,
                        get_or_empty(convs, (r, x)),
                    );
                assert(0 <= i < n);
            } else {
                assert(nm[r] == nm0[r]);
                let i = choose|i: int|
                    0 <= i < n - 1 && noun_pair_at(f, i) == (r, x) && nm0[r][x] == noun_item_model(
                        f,
                        i,
                        get_or_empty(convs, (r, x)),
                    );
                assert(0 <= i < n);
            }
        }
    }
}

/// The conditions of the first `n` condition items are the book's
/// conditions that these items list.
proof fn lemma_conditions_prefix(book: Book, f: BookFormat, n: int)
    requires
        formats(book, f),
        0 <= n <= f.conditions@.len(),
    ensures
        forall|r: u16|
            #[trigger] condition_map_upto(f, n).contains_key(r) <==> exists|i: int|
                0 <= i < n && room_num_at(f, f.conditions@[i].parent_room.0 as int) == r,
        forall|r: u16, c: u8|
            condition_map_upto(f, n).contains_key(r) ==> (#[trigger] condition_map_upto(f, n)[r].contains_key(c)
                <==> exists|i: int|
                0 <= i < n && room_num_at(f, f.conditions@[i].parent_room.0 as int) == r
                    && f.conditions@[i].num == c),
        forall|r: u16, c: u8|
            condition_map_upto(f, n).contains_key(r) && #[trigger] condition_map_upto(f, n)[r].contains_key(c)
                ==> book.rooms@.contains_key(r) && book.rooms@[r].conditions@.contains_key(c)
                && condition_map_upto(f, n)[r][c] == opt_str(book.rooms@[r].conditions@[c].desc),
    decreases n,
{
    if n > 0 {
        lemma_conditions_prefix(book, f, n - 1);
        let prev = condition_map_upto(f, n - 1);
        let item = f.conditions@[n - 1];
        let room = room_num_at(f, item.parent_room.0 as int);
        let m = condition_map_upto(f, n);
        assert(m == prev.insert(room, get_or_empty(prev, room).insert(item.num, opt_str(item.description))));
        assert(book.rooms@.contains_key(room));
        assert forall|r: u16|
            #[trigger] m.contains_key(r) <==> exists|i: int|
                0 <= i < n && room_num_at(f, f.conditions@[i].parent_room.0 as int) == r by {
            if m.contains_key(r) && r != room {
                let i = choose|i: int| 0 <= i < n - 1 && room_num_at(f, f.conditions@[i].parent_room.0 as int) == r;
                assert(0 <= i < n && room_num_at(f, f.conditions@[i].parent_room.0 as int) == r);
            }
            if m.contains_key(r) && r == room {
                assert(0 <= n - 1 < n && room_num_at(f, f.conditions@[n - 1].parent_room.0 as int) == r);
            }
            if exists|i: int| 0 <= i < n && room_num_at(f, f.conditions@[i].parent_room.0 as int) == r {
                let i = choose|i: int| 0 <= i < n && room_num_at(f, f.conditions@[i].parent_room.0 as int) == r;
                if i < n - 1 {
                    assert(prev.contains_key(r));
                }
            }
        }
        assert forall|r: u16, c: u8|
            m.contains_key(r) implies (#[trigger] m[r].contains_key(c) <==> exists|i: int|
                0 <= i < n && room_num_at(f, f.conditions@[i].parent_room.0 as int) == r
                    && f.conditions@[i].num == c) by {
            if r == room {
                if m[r].contains_key(c) && c != item.num {
                    assert(prev.contains_key(r));
                    assert(prev[r].contains_key(c));
                    let i = choose|i: int|
                        0 <= i < n - 1 && room_num_at(f, f.conditions@[i].parent_room.0 as int) == r
                            && f.conditions@[i].num == c;
                    assert(0 <= i < n);
                }
                if m[r].contains_key(c) && c == item.num {
                    assert(0 <= n - 1 < n && room_num_at(f, f.conditions@[n - 1].parent_room.0 as int)
                        == r && f.conditions@[n - 1].num == c);
                }
                if exists|i: int|
                    0 <= i < n && room_num_at(f, f.conditions@[i].parent_room.0 as int) == r
                        && f.conditions@[i].num == c {
                    let i = choose|i: int|
                        0 <= i < n && room_num_at(f, f.conditions@[i].parent_room.0 as int) == r
                            && f.conditions@[i].num == c;
                    if i < n - 1 && c != item.num {
                        assert(prev.contains_key(r));
                        assert(prev[r].contains_key(c));
                    }
                }
            } else {
                assert(m[r] == prev[r]);
                if exists|i: int|
                    0 <= i < n && room_num_at(f, f.conditions@[i].parent_room.0 as int) == r
                        && f.conditions@[i].num == c {
                    let i = choose|i: int|
                        0 <= i < n && room_num_at(f, f.conditions@[i].parent_room.0 as int) == r
                            && f.conditions@[i].num == c;
                    assert(0 <= i < n - 1);
                }
                if m[r].contains_key(c) {
                    let i = choose|i: int|
                        0 <= i < n - 1 && room_num_at(f, f.conditions@[i].parent_room.0 as int) == r
                            && f.conditions@[i].num == c;
                    assert(0 <= i < n);
                }
            }
        }
        assert forall|r: u16, c: u8|
            m.contains_key(r) && #[trigger] m[r].contains_key(c) implies book.rooms@.contains_key(r)
                && book.rooms@[r].conditions@.contains_key(c) && m[r][c] == opt_str(
                book.rooms@[r].conditions@[c].desc,
            ) by {
            if r == room {
                if c != item.num {
                    assert(prev.contains_key(r));
                    assert(prev[r].contains_key(c));
                }
            } else {
                assert(m[r] == prev[r]);
                assert(prev[r].contains_key(c));
            }
        }
    }
}

/// After the first `n` room items, each room has taken its nouns and
/// conditions.
proof fn lemma_rooms_prefix(
    book: Book,
    f: BookFormat,
    nouns: Map<u16, Map<u8, NounModel>>,
    conds: Map<u16, Map<u8, Option<Seq<char>>>>,
    n: int,
)
    requires
        formats(book, f),
        0 <= n <= f.rooms@.len(),
    ensures
        ({
            let (rn, rc, rm) = rooms_upto(f, nouns, conds, n);
            &&& forall|r: u16| #[trigger] rn.contains_key(r) ==> nouns.contains_key(r) && rn[r] == nouns[r]
                && !(exists|i: int| 0 <= i < n && f.rooms@[i].num == r)
            &&& forall|r: u16|
                nouns.contains_key(r) && !(exists|i: int| 0 <= i < n && f.rooms@[i].num == r)
                    ==> #[trigger] rn.contains_key(r)
            &&& forall|r: u16| #[trigger] rc.contains_key(r) ==> conds.contains_key(r) && rc[r] == conds[r]
                && !(exists|i: int| 0 <= i < n && f.rooms@[i].num == r)
            &&& forall|r: u16|
                conds.contains_key(r) && !(exists|i: int| 0 <= i < n && f.rooms@[i].num == r)
                    ==> #[trigger] rc.contains_key(r)
            &&& forall|r: u16|
                #[trigger] rm.contains_key(r) <==> exists|i: int| 0 <= i < n && f.rooms@[i].num == r
            &&& forall|r: u16|
                #[trigger] rm.contains_key(r) ==> exists|i: int|
                    0 <= i < n && f.rooms@[i].num == r && rm[r] == (RoomModel {
                        name: opt_str(f.rooms@[i].name),
                        conditions: get_or_empty(conds, r),
                        nouns: get_or_empty(nouns, r),
                    })
        }),
    decreases n,
{
    if n > 0 {
        lemma_rooms_prefix(book, f, nouns, conds, n - 1);
        let (rn0, rc0, rm0) = rooms_upto(f, nouns, conds, n - 1);
        let item = f.rooms@[n - 1];
        let k = item.num;
        let (rn, rc, rm) = rooms_upto(f, nouns, conds, n);
        let model = RoomModel {
            name: opt_str(item.name),
            conditions: get_or_empty(rc0, k),
            nouns: get_or_empty(rn0, k),
        };
        assert(rn == rn0.remove(k));
        assert(rc == rc0.remove(k));
        assert(rm == rm0.insert(k, model));
        assert(forall|i: int| 0 <= i < n - 1 ==> f.rooms@[i].num != k);
        assert(get_or_empty(rn0, k) == get_or_empty(nouns, k)) by {
            if nouns.contains_key(k) {
                assert(rn0.contains_key(k));
            }
        }
        assert(get_or_empty(rc0, k) == get_or_empty(conds, k)) by {
            if conds.contains_key(k) {
                assert(rc0.contains_key(k));
            }
        }
        assert forall|r: u16|
            nouns.contains_key(r) && !(exists|i: int| 0 <= i < n && f.rooms@[i].num == r) implies #[trigger] rn.contains_key(r) by {
            assert(r != k);
        }
        assert forall|r: u16|
            conds.contains_key(r) && !(exists|i: int| 0 <= i < n && f.rooms@[i].num == r) implies #[trigger] rc.contains_key(r) by {
            assert(r != k);
        }
        assert forall|r: u16| #[trigger] rn.contains_key(r) implies nouns.contains_key(r) && rn[r] == nouns[r]
            && !(exists|i: int| 0 <= i < n && f.rooms@[i].num == r) by {
            if exists|i: int| 0 <= i < n && f.rooms@[i].num == r {
                let i = choose|i: int| 0 <= i < n && f.rooms@[i].num == r;
                assert(i < n - 1);
            }
        }
        assert forall|r: u16| #[trigger] rc.contains_key(r) implies conds.contains_key(r) && rc[r] == conds[r]
            && !(exists|i: int| 0 <= i < n && f.rooms@[i].num == r) by {
            if exists|i: int| 0 <= i < n && f.rooms@[i].num == r {
                let i = choose|i: int| 0 <= i < n && f.rooms@[i].num == r;
                assert(i < n - 1);
            }
        }
        assert forall|r: u16|
            #[trigger] rm.contains_key(r) <==> exists|i: int| 0 <= i < n && f.rooms@[i].num == r by {
            if rm.contains_key(r) && r != k {
                let i = choose|i: int| 0 <= i < n - 1 && f.rooms@[i].num == r;
                assert(0 <= i < n);
            }
            if rm.contains_key(r) && r == k {
                assert(0 <= n - 1 < n && f.rooms@[n - 1].num == r);
            }
            if exists|i: int| 0 <= i < n && f.rooms@[i].num == r {
                let i = choose|i: int| 0 <= i < n && f.rooms@[i].num == r;
                if i < n - 1 {
                    assert(rm0.contains_key(r));
                }
            }
        }
        assert forall|r: u16|
            #[trigger] rm.contains_key(r) implies exists|i: int|
                0 <= i < n && f.rooms@[i].num == r && rm[r] == (RoomModel {
                    name: opt_str(f.rooms@[i].name),
                    conditions: get_or_empty(conds, r),
                    nouns: get_or_empty(nouns, r),
                }) by {
            if r == k {
                assert(0 <= n - 1 < n && f.rooms@[n - 1].num == r);
            } else {
                let i = choose|i: int|
                    0 <= i < n - 1 && f.rooms@[i].num == r && rm0[r] == (RoomModel {
                        name: opt_str(f.rooms@[i].name),
                        conditions: get_or_empty(conds, r),
                        nouns: get_or_empty(nouns, r),
                    });
                assert(0 <= i < n);
            }
        }
    }
}

/// A conversation's lines as a flattened book reads them back.
pub open spec fn reread_conversation(c: ConversationEntry) -> Map<u8, LineModel> {
    c.lines@.map_values(|l: LineEntry| reread_line(line_model(l)))
}

/// A noun as a flattened book reads it back.
pub open spec fn reread_noun(n: NounEntry) -> NounModel {
    NounModel {
        desc: opt_str(n.desc),
        is_cutscene: n.is_cutscene,
        conversations: n.conversations@.map_values(|c: ConversationEntry| reread_conversation(c)),
    }
}

/// A room as a flattened book reads it back.
pub open spec fn reread_room(r: RoomEntry) -> RoomModel {
    RoomModel {
        name: opt_str(r.name),
        conditions: r.conditions@.map_values(|c: ConditionEntry| opt_str(c.desc)),
        nouns: r.nouns@.map_values(|n: NounEntry| reread_noun(n)),
    }
}

/// The rooms of a book as a flattened book reads them back.
pub open spec fn reread_rooms(book: Book) -> Map<u16, RoomModel> {
    book.rooms@.map_values(|r: RoomEntry| reread_room(r))
}

/// The lines read back under a conversation of the book are its lines.
proof fn lemma_read_conversation(book: Book, f: BookFormat, q: (u16, u8, u8, u8))
    requires
        formats(book, f),
        book_has_conv(book, q),
    ensures
        get_or_empty(line_map_upto(f, f.lines@.len() as int), q) == reread_conversation(
            book.rooms@[q.0].nouns@[q.1].conversations@[(q.2, q.3)],
        ),
{
    let n = f.lines@.len() as int;
    let lm = line_map_upto(f, n);
    lemma_lines_prefix(book, f, n);
    let conv = book.rooms@[q.0].nouns@[q.1].conversations@[(q.2, q.3)];
    let got = get_or_empty(lm, q);
    let want = reread_conversation(conv);
    assert forall|x: u8| #[trigger] got.contains_key(x) <==> want.contains_key(x) by {
        if got.contains_key(x) {
            assert(lm.contains_key(q));
            assert(lm[q].contains_key(x));
            assert(book_has_line(book, q, x));
        }
        if want.contains_key(x) {
            assert(book_has_line(book, q, x));
            let i = choose|i: int|
                0 <= i < f.lines@.len() && conv_quad_at(f, (#[trigger] f.lines@[i]).parent_conversation.0 as int)
                    == q && f.lines@[i].num == x;
            assert(line_quad(f, i) == q);
            assert(lm.contains_key(q));
            assert(lm[q].contains_key(x));
        }
    }
    assert forall|x: u8| got.contains_key(x) implies #[trigger] got[x] == want[x] by {
        assert(lm.contains_key(q));
        assert(lm[q].contains_key(x));
    }
    assert(got =~= want);
}

/// The conversations read back under a noun of the book are its
/// conversations.
proof fn lemma_read_noun_conversations(book: Book, f: BookFormat, r: u16, x: u8)
    requires
        formats(book, f),
        book.rooms@.contains_key(r),
        book.rooms@[r].nouns@.contains_key(x),
    ensures
        ({
            let lm = line_map_upto(f, f.lines@.len() as int);
            let cm = conv_map_upto(f, lm, f.conversations@.len() as int).1;
            get_or_empty(cm, (r, x)) == book.rooms@[r].nouns@[x].conversations@.map_values(
                |c: ConversationEntry| reread_conversation(c),
            )
        }),
{
    let lm = line_map_upto(f, f.lines@.len() as int);
    let nc = f.conversations@.len() as int;
    lemma_convs_prefix(book, f, lm, nc);
    let cm = conv_map_upto(f, lm, nc).1;
    let noun = book.rooms@[r].nouns@[x];
    let got = get_or_empty(cm, (r, x));
    let want = noun.conversations@.map_values(|c: ConversationEntry| reread_conversation(c));
    assert forall|ck: (u8, u8)| #[trigger] got.contains_key(ck) <==> want.contains_key(ck) by {
        let q = (r, x, ck.0, ck.1);
        if got.contains_key(ck) {
            assert(cm.contains_key((r, x)));
            assert(cm[(r, x)].contains_key(ck));
            let i = choose|i: int| 0 <= i < nc && conv_quad_at(f, i) == q;
            assert(book_has_conv(book, conv_quad_at(f, i)));
        }
        if want.contains_key(ck) {
            assert(book_has_conv(book, q));
            let i = choose|i: int| 0 <= i < nc && #[trigger] conv_quad_at(f, i) == q;
            assert(0 <= i < nc && (conv_quad_at(f, i).0, conv_quad_at(f, i).1) == (r, x));
            assert(cm.contains_key((r, x)));
            assert(cm[(r, x)].contains_key(ck));
        }
    }
    assert forall|ck: (u8, u8)| got.contains_key(ck) implies #[trigger] got[ck] == want[ck] by {
        let q = (r, x, ck.0, ck.1);
        assert(cm.contains_key((r, x)));
        assert(cm[(r, x)].contains_key(ck));
        assert(book_has_conv(book, q));
        lemma_read_conversation(book, f, q);
    }
    assert(got =~= want);
}

/// The nouns read back under a room of the book are its nouns.
proof fn lemma_read_room_nouns(book: Book, f: BookFormat, r: u16)
    requires
        formats(book, f),
        book.rooms@.contains_key(r),
    ensures
        ({
            let lm = line_map_upto(f, f.lines@.len() as int);
            let cm = conv_map_upto(f, lm, f.conversations@.len() as int).1;
            let nm = noun_map_upto(f, cm, f.nouns@.len() as int).1;
            get_or_empty(nm, r) == book.rooms@[r].nouns@.map_values(|n: NounEntry| reread_noun(n))
        }),
{
    let lm = line_map_upto(f, f.lines@.len() as int);
    let cm = conv_map_upto(f, lm, f.conversations@.len() as int).1;
    let nn = f.nouns@.len() as int;
    lemma_nouns_prefix(book, f, cm, nn);
    let nm = noun_map_upto(f, cm, nn).1;
    let room = book.rooms@[r];
    let got = get_or_empty(nm, r);
    let want = room.nouns@.map_values(|n: NounEntry| reread_noun(n));
    assert forall|x: u8| #[trigger] got.contains_key(x) <==> want.contains_key(x) by {
        if got.contains_key(x) {
            assert(nm.contains_key(r));
            assert(nm[r].contains_key(x));
            let i = choose|i: int| 0 <= i < nn && noun_pair_at(f, i) == (r, x);
            let item = f.nouns@[i];
            assert(room_num_at(f, item.parent_room.0 as int) == r);
            assert(book.rooms@[r].nouns@.contains_key(item.num));
        }
        if want.contains_key(x) {
            let i = choose|i: int| 0 <= i < nn && #[trigger] noun_pair_at(f, i) == (r, x);
            assert(nm.contains_key(r));
            assert(nm[r].contains_key(x));
        }
    }
    assert forall|x: u8| got.contains_key(x) implies #[trigger] got[x] == want[x] by {
        assert(nm.contains_key(r));
        assert(nm[r].contains_key(x));
        let i = choose|i: int|
            0 <= i < nn && noun_pair_at(f, i) == (r, x) && nm[r][x] == noun_item_model(
                f,
                i,
                get_or_empty(cm, (r, x)),
            );
        let item = f.nouns@[i];
        assert(room_num_at(f, item.parent_room.0 as int) == r);
        lemma_read_noun_conversations(book, f, r, x);
    }
    assert(got =~= want);
}

/// The conditions read back under a room of the book are its conditions.
proof fn lemma_read_room_conditions(book: Book, f: BookFormat, r: u16)
    requires
        formats(book, f),
        book.rooms@.contains_key(r),
    ensures
        get_or_empty(condition_map_upto(f, f.conditions@.len() as int), r) == book.rooms@[r].conditions@.map_values(
            |c: ConditionEntry| opt_str(c.desc),
        ),
{
    let nk = f.conditions@.len() as int;
    lemma_conditions_prefix(book, f, nk);
    let cd = condition_map_upto(f, nk);
    let got = get_or_empty(cd, r);
    let want = book.rooms@[r].conditions@.map_values(|c: ConditionEntry| opt_str(c.desc));
    assert forall|c: u8| #[trigger] got.contains_key(c) <==> want.contains_key(c) by {
        if got.contains_key(c) {
            assert(cd.contains_key(r));
            assert(cd[r].contains_key(c));
        }
        if want.contains_key(c) {
            let i = choose|i: int|
                0 <= i < f.conditions@.len() && room_num_at(f, (#[trigger] f.conditions@[i]).parent_room.0 as int)
                    == r && f.conditions@[i].num == c;
            assert(cd.contains_key(r));
            assert(cd[r].contains_key(c));
        }
    }
    assert forall|c: u8| got.contains_key(c) implies #[trigger] got[c] == want[c] by {
        assert(cd.contains_key(r));
        assert(cd[r].contains_key(c));
    }
    assert(got =~= want);
}

/// Reading a flattened book gives back the book: its roles, its verbs, and
/// its rooms with their conditions, nouns, conversations and lines, each
/// line with its own talker and role, except that a line without text runs
/// gets one empty plain run.
pub proof fn lemma_read_formatted_book(book: Book, f: BookFormat)
    requires
        book.wf(),
        formats(book, f),
    ensures
        f.project_name@ == book.project_name@,
        forall|k: Seq<char>|
            #[trigger] map_get(roles_upto(f, f.roles@.len() as int), k) == lookup(
                roles_model(book.roles@),
                k,
            ),
        verbs_upto(f, f.verbs@.len() as int) == verbs_model(book.verbs),
        format_rooms(f) == reread_rooms(book),
{
    lemma_roles_read(book, f);
    lemma_verbs_read(book, f);
    let lm = line_map_upto(f, f.lines@.len() as int);
    let cm = conv_map_upto(f, lm, f.conversations@.len() as int).1;
    let nm = noun_map_upto(f, cm, f.nouns@.len() as int).1;
    let cd = condition_map_upto(f, f.conditions@.len() as int);
    let nr = f.rooms@.len() as int;
    lemma_rooms_prefix(book, f, nm, cd, nr);
    let rm = rooms_upto(f, nm, cd, nr).2;
    assert(format_rooms(f) == rm);
    let want = reread_rooms(book);
    assert forall|r: u16| #[trigger] rm.contains_key(r) <==> want.contains_key(r) by {
        if rm.contains_key(r) {
            let i = choose|i: int| 0 <= i < nr && f.rooms@[i].num == r;
            let item = f.rooms@[i];
            assert(book.rooms@.contains_key(item.num));
        }
        if want.contains_key(r) {
            let i = choose|i: int| 0 <= i < nr && (#[trigger] f.rooms@[i]).num == r;
            assert(rm.contains_key(r));
        }
    }
    assert forall|r: u16| rm.contains_key(r) implies #[trigger] rm[r] == want[r] by {
        let i = choose|i: int|
            0 <= i < nr && f.rooms@[i].num == r && rm[r] == (RoomModel {
                name: opt_str(f.rooms@[i].name),
                conditions: get_or_empty(cd, r),
                nouns: get_or_empty(nm, r),
            });
        let item = f.rooms@[i];
        assert(book.rooms@.contains_key(item.num));
        lemma_read_room_nouns(book, f, r);
        lemma_read_room_conditions(book, f, r);
    }
    assert(rm =~= want);
}

} // verus!