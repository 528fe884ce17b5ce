//! The snapshot text of the tree index: a compact JSON form with a
//! `{"File":"name"}` leaf and a `{"Dir":["name",[children]]}` node, with
//! `"` and `\` escaped in names. The writer and the reader here invert
//! each other exactly, so a snapshot loads back as the tree it was saved
//! from.

use vstd::prelude::*;
use vstd::string::StrSliceExecFns;
use vstd::string::StringExecFns;

use crate::memory::index::view_of_list;
use crate::memory::index::view_of_node;
use crate::memory::index::IndexError;
use crate::memory::index::IndexType;
use crate::memory::index::IndexView;
use crate::text::match_at;

verus! {

/// How one character appears inside a quoted name.
pub open spec fn esc_char(c: char) -> Seq<char> {
    if c == '"' {
        seq!['\\', '"']
    } else if c == '\\' {
        seq!['\\', '\\']
    } else {
        seq![c]
    }
}

/// How a whole name appears inside its quotes.
pub open spec fn esc(s: Seq<char>) -> Seq<char>
    decreases s.len(),
{
    if s.len() == 0 {
        Seq::empty()
    } else {
        esc(s.drop_last()) + esc_char(s.last())
    }
}

/// What opens a file leaf.
pub open spec fn file_open() -> Seq<char> {
    seq!['{', '"', 'F', 'i', 'l', 'e', '"', ':', '"']
}

/// What closes a file leaf, after the name's closing quote.
pub open spec fn file_close() -> Seq<char> {
    seq!['"', '}']
}

/// What opens a directory node.
pub open spec fn dir_open() -> Seq<char> {
    seq!['{', '"', 'D', 'i', 'r', '"', ':', '[', '"']
}

/// What stands between a directory's name and its child list.
pub open spec fn dir_mid() -> Seq<char> {
    seq!['"', ',', '[']
}

/// What closes a directory node.
pub open spec fn dir_close() -> Seq<char> {
    seq![']', ']', '}']
}

/// The snapshot text of one tree node.
pub open spec fn ser_view(v: IndexView) -> Seq<char>
    decreases v,
{
    match v {
        IndexView::File { name } => file_open() + esc(name) + file_close(),
        IndexView::Dir { name, entries } => dir_open() + esc(name) + dir_mid()
            + ser_view_list(entries) + dir_close(),
    }
}

/// The snapshot text of a child list, comma-separated.
pub open spec fn ser_view_list(vs: Seq<IndexView>) -> Seq<char>
    decreases vs,
{
    if vs.len() == 0 {
        Seq::empty()
    } else if vs.len() == 1 {
        ser_view(vs[0])
    } else {
        ser_view_list(vs.drop_last()) + seq![','] + ser_view(vs.last())
    }
}

/// Appends one name, escaped, to the snapshot text.
fn write_escaped(name: &str, out: &mut String)
    ensures
        final(out)@ == old(out)@ + esc(name@),
{
    let len = name.unicode_len();
    let mut i: usize = 0;
    proof {
        assert(old(out)@ + esc(name@.take(0)) =~= old(out)@);
    }
    while i < len
        invariant
            0 <= i <= len,
            len == name@.len(),
            out@ == old(out)@ + esc(name@.take(i as int)),
        decreases len - i,
    {
        let c = name.get_char(i);
        if c == '"' {
            proof {
                reveal_strlit("\\\"");
                assert("\\\""@ =~= seq!['\\', '"']);
            }
            out.append("\\\"");
        } else if c == '\\' {
            proof {
                reveal_strlit("\\\\");
                assert("\\\\"@ =~= seq!['\\', '\\']);
            }
            out.append("\\\\");
        } else {
            let piece = name.substring_char(i, i + 1);
            proof {
                assert(piece@ =~= seq![name@[i as int]]);
            }
            out.append(piece);
        }
        proof {
            assert(name@.take(i + 1).drop_last() =~= name@.take(i as int));
            assert(name@.take(i + 1).last() == name@[i as int]);
            assert(out@ =~= old(out)@ + esc(name@.take(i + 1)));
        }
        i += 1;
    }
    proof {
        assert(name@.take(len as int) =~= name@);
    }
}

/// Appends the snapshot text of one node.
fn write_node(t: &IndexType, out: &mut String)
    ensures
        final(out)@ == old(out)@ + ser_view(view_of_node(*t)),
    decreases *t,
{
    match t {
        IndexType::File(name) => {
            proof {
                reveal_strlit("{\"File\":\"");
                assert("{\"File\":\""@ =~= file_open());
                reveal_strlit("\"}");
                assert("\"}"@ =~= file_close());
            }
            out.append("{\"File\":\"");
            write_escaped(name.as_str(), out);
            out.append("\"}");
            proof {
                assert(out@ =~= old(out)@ + ser_view(view_of_node(*t)));
            }
        },
        IndexType::Dir(name, children) => {
            proof {
                reveal_strlit("{\"Dir\":[\"");
                assert("{\"Dir\":[\""@ =~= dir_open());
                reveal_strlit("\",[");
                assert("\",["@ =~= dir_mid());
                reveal_strlit("]]}");
                assert("]]}"@ =~= dir_close());
            }
            out.append("{\"Dir\":[\"");
            write_escaped(name.as_str(), out);
            out.append("\",[");
            write_list(children, out);
            out.append("]]}");
            proof {
                assert(out@ =~= old(out)@ + ser_view(view_of_node(*t)));
            }
        },
    }
}

/// Appends the snapshot text of a child list.
fn write_list(ts: &Vec<IndexType>, out: &mut String)
    ensures
        final(out)@ == old(out)@ + ser_view_list(view_of_list(ts@)),
    decreases ts@,
{
    let n = ts.len();
    let mut i: usize = 0;
    proof {
        assert(old(out)@ + ser_view_list(view_of_list(ts@.take(0))) =~= old(out)@);
    }
    while i < n
        invariant
            0 <= i <= n,
            n == ts@.len(),
            out@ == old(out)@ + ser_view_list(view_of_list(ts@.take(i as int))),
        decreases n - i,
    {
        if i > 0 {
            proof {
                reveal_strlit(",");
                assert(","@ =~= seq![',']);
            }
            out.append(",");
        }
        write_node(&ts[i], out);
        proof {
            assert(ts@.take(i + 1).drop_last() =~= ts@.take(i as int));
            assert(ts@.take(i + 1).last() == ts@[i as int]);
            assert(view_of_list(ts@.take(i + 1)) =~= view_of_list(ts@.take(i as int)).push(
                view_of_node(ts@[i as int]),
            ));
            let vl = view_of_list(ts@.take(i as int));
            let full = view_of_list(ts@.take(i + 1));
            if i == 0 {
                assert(full.len() == 1);
                assert(full[0] == view_of_node(ts@[0]));
                assert(ser_view_list(full) == ser_view(view_of_node(ts@[0])));
            } else {
                assert(full.len() >= 2);
                assert(full.drop_last() =~= vl);
                assert(full.last() == view_of_node(ts@[i as int]));
            }
            assert(out@ =~= old(out)@ + ser_view_list(view_of_list(ts@.take(i + 1))));
        }
        i += 1;
    }
    proof {
        assert(ts@.take(n as int) =~= ts@);
    }
}

/// The snapshot text for the tree rooted at `t`.
pub fn serialize_index(t: &IndexType) -> (r: String)
    ensures
        r@ == ser_view(view_of_node(*t)),
{
    let mut out = String::new();
    write_node(t, &mut out);
    proof {
        assert(out@ =~= ser_view(view_of_node(*t)));
    }
    out
}

/// Reading a quoted name from `i`: the characters up to the closing
/// quote, with the two escapes undone; the position returned is just
/// after the closing quote.
pub open spec fn scan_string(s: Seq<char>, i: int) -> Option<(Seq<char>, int)>
    decreases s.len() - i,
{
    if i < 0 || i >= s.len() {
        None
    } else if s[i] == '"' {
        Some((Seq::empty(), i + 1))
    } else if s[i] == '\\' {
        if i + 1 < s.len() && (s[i + 1] == '"' || s[i + 1] == '\\') {
            match scan_string(s, i + 2) {
                Some(p) => Some((seq![s[i + 1]] + p.0, p.1)),
                None => None,
            }
        } else {
            None
        }
    } else {
        match scan_string(s, i + 1) {
            Some(p) => Some((seq![s[i]] + p.0, p.1)),
            None => None,
        }
    }
}

proof fn lemma_esc_front(c: char, rest: Seq<char>)
    ensures
        esc(seq![c] + rest) == esc_char(c) + esc(rest),
    decreases rest.len(),
{
    let v = seq![c] + rest;
    if rest.len() == 0 {
        assert(v.drop_last() =~= Seq::<char>::empty());
        assert(v.last() == c);
        assert(esc(Seq::<char>::empty()) =~= Seq::<char>::empty());
        assert(rest =~= Seq::<char>::empty());
        assert(esc(v) =~= esc_char(c) + esc(rest));
    } else {
        assert(v.drop_last() =~= seq![c] + rest.drop_last());
        assert(v.last() == rest.last());
        lemma_esc_front(c, rest.drop_last());
        assert(esc(v) =~= esc_char(c) + esc(rest));
    }
}

proof fn lemma_scan_string_sound(s: Seq<char>, i: int)
    requires
        0 <= i <= s.len(),
        scan_string(s, i) is Some,
    ensures
        ({
            let p = scan_string(s, i)->Some_0;
            i < p.1 <= s.len() && s.subrange(i, p.1) == esc(p.0) + seq!['"']
        }),
    decreases s.len() - i,
{
    let p = scan_string(s, i)->Some_0;
    let r = esc(p.0) + seq!['"'];
    if s[i] == '"' {
        assert(esc(p.0) =~= Seq::<char>::empty());
        assert(s.subrange(i, i + 1) =~= r);
    } else if s[i] == '\\' {
        let d = s[i + 1];
        lemma_scan_string_sound(s, i + 2);
        let q = scan_string(s, i + 2)->Some_0;
        lemma_esc_front(d, q.0);
        let qr = esc(q.0) + seq!['"'];
        assert(s.subrange(i + 2, q.1) == qr);
        assert(esc(p.0) == esc_char(d) + esc(q.0));
        assert(p.1 - i == esc(p.0).len() + 1);
        assert forall|m: int| 0 <= m < p.1 - i implies s.subrange(i, p.1)[m] == r[m] by {
            assert(s.subrange(i, p.1)[m] == s[i + m]);
            if m == 0 {
                assert((esc(p.0) + seq!['"'])[0] == esc(p.0)[0]);
                assert((esc_char(d) + esc(q.0))[0] == esc_char(d)[0]);
            } else if m == 1 {
                assert((esc(p.0) + seq!['"'])[1] == esc(p.0)[1]);
                assert((esc_char(d) + esc(q.0))[1] == esc_char(d)[1]);
            } else {
                assert(s.subrange(i + 2, q.1)[m - 2] == s[i + 2 + (m - 2)]);
                assert((esc(q.0) + seq!['"'])[m - 2] == qr[m - 2]);
                if m < 2 + esc(q.0).len() {
                    assert((esc(p.0) + seq!['"'])[m] == esc(p.0)[m]);
                    assert((esc_char(d) + esc(q.0))[m] == esc(q.0)[m - 2]);
                    assert((esc(q.0) + seq!['"'])[m - 2] == esc(q.0)[m - 2]);
                } else {
                    assert(m == 2 + esc(q.0).len());
                    assert((esc(p.0) + seq!['"'])[m] == seq!['"'][0]);
                    assert((esc(q.0) + seq!['"'])[m - 2] == seq!['"'][0]);
                }
            }
        }
        assert(s.subrange(i, p.1) =~= r);
    } else {
        let c = s[i];
        lemma_scan_string_sound(s, i + 1);
        let q = scan_string(s, i + 1)->Some_0;
        lemma_esc_front(c, q.0);
        let qr = esc(q.0) + seq!['"'];
        assert(s.subrange(i + 1, q.1) == qr);
        assert(esc(p.0) == esc_char(c) + esc(q.0));
        assert(esc_char(c) =~= seq![c]);
        assert(p.1 - i == esc(p.0).len() + 1);
        assert forall|m: int| 0 <= m < p.1 - i implies s.subrange(i, p.1)[m] == r[m] by {
            assert(s.subrange(i, p.1)[m] == s[i + m]);
            if m == 0 {
                assert((esc(p.0) + seq!['"'])[0] == esc(p.0)[0]);
                assert((esc_char(c) + esc(q.0))[0] == esc_char(c)[0]);
            } else {
                assert(s.subrange(i + 1, q.1)[m - 1] == s[i + 1 + (m - 1)]);
                assert((esc(q.0) + seq!['"'])[m - 1] == qr[m - 1]);
                if m < 1 + esc(q.0).len() {
                    assert((esc(p.0) + seq!['"'])[m] == esc(p.0)[m]);
                    assert((esc_char(c) + esc(q.0))[m] == esc(q.0)[m - 1]);
                    assert((esc(q.0) + seq!['"'])[m - 1] == esc(q.0)[m - 1]);
                } else {
                    assert(m == 1 + esc(q.0).len());
                    assert((esc(p.0) + seq!['"'])[m] == seq!['"'][0]);
                    assert((esc(q.0) + seq!['"'])[m - 1] == seq!['"'][0]);
                }
            }
        }
        assert(s.subrange(i, p.1) =~= r);
    }
}

proof fn lemma_scan_string_complete(s: Seq<char>, i: int, n: Seq<char>)
    requires
        0 <= i,
        i + esc(n).len() + 1 <= s.len(),
        s.subrange(i, i + esc(n).len() as int) == esc(n),
        s[i + esc(n).len()] == '"',
    ensures
        scan_string(s, i) == Some((n, i + esc(n).len() + 1)),
    decreases n.len(),
{
    if n.len() == 0 {
        assert(esc(n).len() == 0);
        assert(s[i] == '"');
    } else {
        let c = n[0];
        let rest = n.drop_first();
        assert(n =~= seq![c] + rest);
        lemma_esc_front(c, rest);
        assert(esc(n) == esc_char(c) + esc(rest));
        if c == '"' || c == '\\' {
            assert(esc_char(c) =~= seq!['\\', c]);
            assert(s[i] == esc(n)[0]);
            assert(s[i] == '\\');
            assert(s[i + 1] == esc(n)[1]);
            assert(s[i + 1] == c);
            assert(s.subrange(i + 2, i + 2 + esc(rest).len() as int) =~= esc(rest)) by {
                assert forall|m: int| 0 <= m < esc(rest).len() implies s.subrange(
                    i + 2,
                    i + 2 + esc(rest).len() as int,
                )[m] == esc(rest)[m] by {
                    assert(s.subrange(i + 2, i + 2 + esc(rest).len() as int)[m] == s[i
                        + 2 + m]);
                    assert(s.subrange(i, i + esc(n).len() as int)[2 + m] == s[i + (2
                        + m)]);
                    assert((esc_char(c) + esc(rest))[2 + m] == esc(rest)[m]);
                }
            }
            lemma_scan_string_complete(s, i + 2, rest);
            assert(seq![s[i + 1]] + rest =~= n);
        } else {
            assert(esc_char(c) =~= seq![c]);
            assert(s[i] == esc(n)[0]);
            assert(s[i] == c);
            assert(s.subrange(i + 1, i + 1 + esc(rest).len() as int) =~= esc(rest)) by {
                assert forall|m: int| 0 <= m < esc(rest).len() implies s.subrange(
                    i + 1,
                    i + 1 + esc(rest).len() as int,
                )[m] == esc(rest)[m] by {
                    assert(s.subrange(i + 1, i + 1 + esc(rest).len() as int)[m] == s[i
                        + 1 + m]);
                    assert(s.subrange(i, i + esc(n).len() as int)[1 + m] == s[i + (1
                        + m)]);
                    assert((esc_char(c) + esc(rest))[1 + m] == esc(rest)[m]);
                }
            }
            lemma_scan_string_complete(s, i + 1, rest);
            assert(seq![s[i]] + rest =~= n);
        }
    }
}

/// Reads a quoted name: what `scan_string` says stands at `i`.
fn parse_string(s: &str, i: usize, len: usize) -> (r: Option<(String, usize)>)
    requires
        len == s@.len(),
        i <= len,
    ensures
        (match r {
            Some(p) => p.1 <= len && scan_string(s@, i as int) == Some((
                p.0@,
                p.1 as int,
            )),
            None => scan_string(s@, i as int) is None,
        }),
{
    let mut acc = String::new();
    let mut pos: usize = i;
    while pos < len
        invariant
            i <= pos <= len,
            len == s@.len(),
            scan_string(s@, i as int) == (match scan_string(s@, pos as int) {
                Some(p) => Some((acc@ + p.0, p.1)),
                None => None::<(Seq<char>, int)>,
            }),
        decreases len - pos,
    {
        let c = s.get_char(pos);
        if c == '"' {
            proof {
                assert(acc@ + Seq::<char>::empty() =~= acc@);
            }
            return Some((acc, pos + 1));
        } else if c == '\\' {
            if pos + 1 < len {
                let d = s.get_char(pos + 1);
                if d == '"' || d == '\\' {
                    let ghost accv = acc@;
                    let piece = s.substring_char(pos + 1, pos + 2);
                    proof {
                        assert(piece@ =~= seq![s@[pos + 1]]);
                    }
                    acc.append(piece);
                    proof {
                        if scan_string(s@, pos + 2) is Some {
                            let q = scan_string(s@, pos + 2)->Some_0;
                            assert(acc@ + q.0 =~= accv + (seq![s@[pos + 1]] + q.0));
                        }
                    }
                    pos = pos + 2;
                } else {
                    return None;
                }
            } else {
                return None;
            }
        } else {
            let ghost accv = acc@;
            let piece = s.substring_char(pos, pos + 1);
            proof {
                assert(piece@ =~= seq![s@[pos as int]]);
            }
            acc.append(piece);
            proof {
                if scan_string(s@, pos + 1) is Some {
                    let q = scan_string(s@, pos + 1)->Some_0;
                    assert(acc@ + q.0 =~= accv + (seq![s@[pos as int]] + q.0));
                }
            }
            pos = pos + 1;
        }
    }
    None
}

/// The text of node `v` stands at `i` in `s`.
pub open spec fn valid_node_at(s: Seq<char>, i: int, v: IndexView) -> bool {
    &&& 0 <= i
    &&& i + ser_view(v).len() <= s.len()
    &&& s.subrange(i, i + ser_view(v).len() as int) == ser_view(v)
}

/// The text of the child list `vs` stands at `i` in `s`, with the
/// closing bracket right after it.
pub open spec fn valid_list_at(s: Seq<char>, i: int, vs: Seq<IndexView>) -> bool {
    &&& 0 <= i
    &&& i + ser_view_list(vs).len() < s.len()
    &&& s.subrange(i, i + ser_view_list(vs).len() as int) == ser_view_list(vs)
    &&& s[i + ser_view_list(vs).len()] == ']'
}

/// The text of the later children of a list, each preceded by a comma.
pub open spec fn ser_view_tail(vs: Seq<IndexView>) -> Seq<char>
    decreases vs,
{
    if vs.len() == 0 {
        Seq::empty()
    } else {
        seq![','] + ser_view(vs[0]) + ser_view_tail(vs.drop_first())
    }
}

proof fn lemma_ser_view_shape(v: IndexView)
    ensures
        ser_view(v).len() >= 11,
        ser_view(v)[0] == '{',
        (v is File ==> ser_view(v)[2] == 'F'),
        (v is Dir ==> ser_view(v)[2] == 'D'),
{
    match v {
        IndexView::File { name } => {
            assert(ser_view(v) == file_open() + esc(name) + file_close());
        },
        IndexView::Dir { name, entries } => {
            assert(ser_view(v) == dir_open() + esc(name) + dir_mid() + ser_view_list(
                entries,
            ) + dir_close());
        },
    }
}

proof fn lemma_tail_snoc(ws: Seq<IndexView>)
    requires
        ws.len() >= 1,
    ensures
        ser_view_tail(ws) == ser_view_tail(ws.drop_last()) + seq![','] + ser_view(
            ws.last(),
        ),
    decreases ws.len(),
{
    if ws.len() == 1 {
        assert(ws.drop_last() =~= Seq::<IndexView>::empty());
        assert(ws.drop_first() =~= Seq::<IndexView>::empty());
        assert(ser_view_tail(ws) =~= ser_view_tail(ws.drop_last()) + seq![',']
            + ser_view(ws.last()));
    } else {
        lemma_tail_snoc(ws.drop_first());
        assert(ws.drop_first().drop_last() =~= ws.drop_last().drop_first());
        assert(ws.drop_last()[0] == ws[0]);
        assert(ws.drop_first().last() == ws.last());
        assert(ser_view_tail(ws) =~= ser_view_tail(ws.drop_last()) + seq![',']
            + ser_view(ws.last()));
    }
}

proof fn lemma_list_tail(vs: Seq<IndexView>)
    requires
        vs.len() >= 1,
    ensures
        ser_view_list(vs) == ser_view(vs[0]) + ser_view_tail(vs.drop_first()),
    decreases vs.len(),
{
    if vs.len() == 1 {
        assert(vs.drop_first() =~= Seq::<IndexView>::empty());
        assert(ser_view_list(vs) =~= ser_view(vs[0]) + ser_view_tail(vs.drop_first()));
    } else {
        lemma_list_tail(vs.drop_last());
        lemma_tail_snoc(vs.drop_first());
        assert(vs.drop_last()[0] == vs[0]);
        assert(vs.drop_last().drop_first() =~= vs.drop_first().drop_last());
        assert(vs.drop_first().last() == vs.last());
        assert(ser_view_list(vs) =~= ser_view(vs[0]) + ser_view_tail(vs.drop_first()));
    }
}

proof fn lemma_tail_split(ws: Seq<IndexView>, m: int)
    requires
        0 <= m < ws.len(),
    ensures
        ser_view_tail(ws) == ser_view_tail(ws.take(m)) + seq![','] + ser_view(ws[m])
            + ser_view_tail(ws.skip(m + 1)),
    decreases m,
{
    if m == 0 {
        assert(ws.take(0) =~= Seq::<IndexView>::empty());
        assert(ws.skip(1) =~= ws.drop_first());
        assert(ser_view_tail(ws) =~= ser_view_tail(ws.take(0)) + seq![','] + ser_view(
            ws[0],
        ) + ser_view_tail(ws.skip(1)));
    } else {
        lemma_tail_split(ws.drop_first(), m - 1);
        assert(ws.drop_first().take(m - 1) =~= ws.take(m).drop_first());
        assert(ws.drop_first()[m - 1] == ws[m]);
        assert(ws.drop_first().skip(m) =~= ws.skip(m + 1));
        assert(ws.take(m)[0] == ws[0]);
        assert(ser_view_tail(ws.take(m)) =~= seq![','] + ser_view(ws[0])
            + ser_view_tail(ws.take(m).drop_first()));
        assert(ser_view_tail(ws) =~= ser_view_tail(ws.take(m)) + seq![','] + ser_view(
            ws[m],
        ) + ser_view_tail(ws.skip(m + 1)));
    }
}

proof fn lemma_list_split(vs: Seq<IndexView>, k: int)
    requires
        1 <= k < vs.len(),
    ensures
        ser_view_list(vs) == ser_view_list(vs.take(k)) + seq![','] + ser_view(vs[k])
            + ser_view_tail(vs.skip(k + 1)),
{
    lemma_list_tail(vs);
    lemma_tail_split(vs.drop_first(), k - 1);
    lemma_list_tail(vs.take(k));
    assert(vs.take(k)[0] == vs[0]);
    assert(vs.take(k).drop_first() =~= vs.drop_first().take(k - 1));
    assert(vs.drop_first()[k - 1] == vs[k]);
    assert(vs.drop_first().skip(k) =~= vs.skip(k + 1));
    assert(ser_view_list(vs) =~= ser_view_list(vs.take(k)) + seq![','] + ser_view(vs[k])
        + ser_view_tail(vs.skip(k + 1)));
}

proof fn lemma_file_analysis(s: Seq<char>, i: int, v: IndexView)
    requires
        valid_node_at(s, i, v),
        v is File,
    ensures
        ({
            let nv = v->File_name;
            let e = esc(nv).len() as int;
            &&& s.subrange(i, i + 9) == file_open()
            &&& scan_string(s, i + 9) == Some((nv, i + 9 + e + 1))
            &&& i + 9 + e + 1 < s.len()
            &&& s[i + 9 + e + 1] == '}'
            &&& ser_view(v).len() == 11 + e
        }),
{
    let nv = v->File_name;
    let e = esc(nv).len() as int;
    let w = ser_view(v);
    let ab = file_open() + esc(nv);
    assert(w == ab + file_close());
    assert(w.len() == 11 + e);
    assert(s.subrange(i, i + 9) =~= file_open()) by {
        assert forall|m: int| 0 <= m < 9 implies s.subrange(i, i + 9)[m]
            == file_open()[m] by {
            assert(s.subrange(i, i + 9)[m] == s[i + m]);
            assert(s.subrange(i, i + w.len() as int)[m] == s[i + m]);
            assert((ab + file_close())[m] == ab[m]);
            assert((file_open() + esc(nv))[m] == file_open()[m]);
        }
    }
    assert(s.subrange(i + 9, i + 9 + e) =~= esc(nv)) by {
        assert forall|m: int| 0 <= m < e implies s.subrange(i + 9, i + 9 + e)[m] == esc(
            nv,
        )[m] by {
            assert(s.subrange(i + 9, i + 9 + e)[m] == s[i + 9 + m]);
            assert(s.subrange(i, i + w.len() as int)[9 + m] == s[i + (9 + m)]);
            assert((ab + file_close())[9 + m] == ab[9 + m]);
            assert((file_open() + esc(nv))[9 + m] == esc(nv)[m]);
        }
    }
    assert(s.subrange(i, i + w.len() as int)[9 + e] == s[i + (9 + e)]);
    assert((ab + file_close())[9 + e] == file_close()[0]);
    assert(s[i + 9 + e] == '"');
    lemma_scan_string_complete(s, i + 9, nv);
    assert(s.subrange(i, i + w.len() as int)[10 + e] == s[i + (10 + e)]);
    assert((ab + file_close())[10 + e] == file_close()[1]);
    assert(s[i + 9 + e + 1] == '}');
}

proof fn lemma_dir_analysis(s: Seq<char>, i: int, v: IndexView)
    requires
        valid_node_at(s, i, v),
        v is Dir,
    ensures
        ({
            let nv = v->Dir_name;
            let ves = v->Dir_entries;
            let e = esc(nv).len() as int;
            let ll = ser_view_list(ves).len() as int;
            &&& s.subrange(i, i + 9) == dir_open()
            &&& scan_string(s, i + 9) == Some((nv, i + 9 + e + 1))
            &&& i + 15 + e + ll <= s.len()
            &&& s[i + 9 + e + 1] == ','
            &&& s[i + 9 + e + 2] == '['
            &&& valid_list_at(s, i + 9 + e + 3, ves)
            &&& s[i + 12 + e + ll] == ']'
            &&& s[i + 13 + e + ll] == ']'
            &&& s[i + 14 + e + ll] == '}'
            &&& ser_view(v).len() == 15 + e + ll
        }),
{
    let nv = v->Dir_name;
    let ves = v->Dir_entries;
    let e = esc(nv).len() as int;
    let ll = ser_view_list(ves).len() as int;
    let w = ser_view(v);
    let ab = dir_open() + esc(nv);
    let abc = ab + dir_mid();
    let abcd = abc + ser_view_list(ves);
    assert(w == abcd + dir_close());
    assert(w.len() == 15 + e + ll);
    assert(s.subrange(i, i + 9) =~= dir_open()) by {
        assert forall|m: int| 0 <= m < 9 implies s.subrange(i, i + 9)[m] == dir_open()[m]
        by {
            assert(s.subrange(i, i + 9)[m] == s[i + m]);
            assert(s.subrange(i, i + w.len() as int)[m] == s[i + m]);
            assert((abcd + dir_close())[m] == abcd[m]);
            assert((abc + ser_view_list(ves))[m] == abc[m]);
            assert((ab + dir_mid())[m] == ab[m]);
            assert((dir_open() + esc(nv))[m] == dir_open()[m]);
        }
    }
    assert(s.subrange(i + 9, i + 9 + e) =~= esc(nv)) by {
        assert forall|m: int| 0 <= m < e implies s.subrange(i + 9, i + 9 + e)[m] == esc(
            nv,
        )[m] by {
            assert(s.subrange(i + 9, i + 9 + e)[m] == s[i + 9 + m]);
            assert(s.subrange(i, i + w.len() as int)[9 + m] == s[i + (9 + m)]);
            assert((abcd + dir_close())[9 + m] == abcd[9 + m]);
            assert((abc + ser_view_list(ves))[9 + m] == abc[9 + m]);
            assert((ab + dir_mid())[9 + m] == ab[9 + m]);
            assert((dir_open() + esc(nv))[9 + m] == esc(nv)[m]);
        }
    }
    assert(s.subrange(i, i + w.len() as int)[9 + e] == s[i + (9 + e)]);
    assert((abcd + dir_close())[9 + e] == abcd[9 + e]);
    assert((abc + ser_view_list(ves))[9 + e] == abc[9 + e]);
    assert((ab + dir_mid())[9 + e] == dir_mid()[0]);
    assert(s[i + 9 + e] == '"');
    lemma_scan_string_complete(s, i + 9, nv);
    assert(s.subrange(i, i + w.len() as int)[10 + e] == s[i + (10 + e)]);
    assert((abcd + dir_close())[10 + e] == abcd[10 + e]);
    assert((abc + ser_view_list(ves))[10 + e] == abc[10 + e]);
    assert((ab + dir_mid())[10 + e] == dir_mid()[1]);
    assert(s[i + 9 + e + 1] == ',');
    assert(s.subrange(i, i + w.len() as int)[11 + e] == s[i + (11 + e)]);
    assert((abcd + dir_close())[11 + e] == abcd[11 + e]);
    assert((abc + ser_view_list(ves))[11 + e] == abc[11 + e]);
    assert((ab + dir_mid())[11 + e] == dir_mid()[2]);
    assert(s[i + 9 + e + 2] == '[');
    assert(s.subrange(i + 12 + e, i + 12 + e + ll) =~= ser_view_list(ves)) by {
        assert forall|m: int| 0 <= m < ll implies s.subrange(i + 12 + e, i + 12 + e
            + ll)[m] == ser_view_list(ves)[m] by {
            assert(s.subrange(i + 12 + e, i + 12 + e + ll)[m] == s[i + 12 + e + m]);
            assert(s.subrange(i, i + w.len() as int)[12 + e + m] == s[i + (12 + e
                + m)]);
            assert((abcd + dir_close())[12 + e + m] == abcd[12 + e + m]);
            assert((abc + ser_view_list(ves))[12 + e + m] == ser_view_list(ves)[m]);
        }
    }
    assert(s.subrange(i, i + w.len() as int)[12 + e + ll] == s[i + (12 + e + ll)]);
    assert((abcd + dir_close())[12 + e + ll] == dir_close()[0]);
    assert(s[i + 12 + e + ll] == ']');
    assert(s.subrange(i, i + w.len() as int)[13 + e + ll] == s[i + (13 + e + ll)]);
    assert((abcd + dir_close())[13 + e + ll] == dir_close()[1]);
    assert(s[i + 13 + e + ll] == ']');
    assert(s.subrange(i, i + w.len() as int)[14 + e + ll] == s[i + (14 + e + ll)]);
    assert((abcd + dir_close())[14 + e + ll] == dir_close()[2]);
    assert(s[i + 14 + e + ll] == '}');
    assert(valid_list_at(s, i + 9 + e + 3, ves)) by {
        assert(s.subrange(i + 9 + e + 3, i + 9 + e + 3 + ll) == s.subrange(i + 12 + e, i
            + 12 + e + ll));
    }
}

/// One node, read at `i`: exactly the tree whose text stands there.
fn parse_node(s: &str, i: usize, len: usize) -> (r: Option<(IndexType, usize)>)
    requires
        len == s@.len(),
        i <= len,
    ensures
        (match r {
            Some(p) => i < p.1 <= len && s@.subrange(i as int, p.1 as int) == ser_view(
                view_of_node(p.0),
            ),
            None => true,
        }),
        forall|v: IndexView|
            valid_node_at(s@, i as int, v) ==> (match r {
                Some(p) => view_of_node(p.0) == v && p.1 as int == i + ser_view(v).len(),
                None => false,
            }),
    decreases len - i, 0int,
{
    if len - i < 11 {
        proof {
            assert forall|v: IndexView| valid_node_at(s@, i as int, v) implies false by {
                lemma_ser_view_shape(v);
            }
        }
        return None;
    }
    let c2 = s.get_char(i + 2);
    proof {
        reveal_strlit("{\"File\":\"");
        assert("{\"File\":\""@ =~= file_open());
        reveal_strlit("{\"Dir\":[\"");
        assert("{\"Dir\":[\""@ =~= dir_open());
        assert forall|v: IndexView| valid_node_at(s@, i as int, v) implies s@[i as int
            + 2] == ser_view(v)[2] by {
            assert(s@.subrange(i as int, i + ser_view(v).len() as int)[2] == s@[i as int
                + 2]);
        }
    }
    if c2 == 'F' {
        if !match_at(s, "{\"File\":\"", i, 9) {
            proof {
                assert forall|v: IndexView| valid_node_at(s@, i as int, v) implies false
                by {
                    lemma_ser_view_shape(v);
                    lemma_file_analysis(s@, i as int, v);
                }
            }
            return None;
        }
        match parse_string(s, i + 9, len) {
            None => {
                proof {
                    assert forall|v: IndexView| valid_node_at(s@, i as int, v) implies
                    false by {
                        lemma_ser_view_shape(v);
                        lemma_file_analysis(s@, i as int, v);
                    }
                }
                None
            },
            Some((name, j)) => {
                proof {
                    lemma_scan_string_sound(s@, i + 9);
                }
                if j < len && s.get_char(j) == '}' {
                    proof {
                        let e = esc(name@).len() as int;
                        assert(s@.subrange(i as int + 9, j as int) == esc(name@)
                            + seq!['"']);
                        assert(s@.subrange(i as int + 9, j as int).len() == (esc(name@)
                            + seq!['"']).len());
                        assert(j == i + 9 + e + 1);
                        assert forall|m: int| 0 <= m < 11 + e implies s@.subrange(
                            i as int,
                            j + 1,
                        )[m] == (file_open() + esc(name@) + file_close())[m] by {
                            assert(s@.subrange(i as int, j + 1)[m] == s@[i + m]);
                            if m < 9 {
                                assert(s@.subrange(i as int, i as int + 9)[m] == s@[i
                                    + m]);
                                assert(((file_open() + esc(name@)) + file_close())[m]
                                    == (file_open() + esc(name@))[m]);
                                assert((file_open() + esc(name@))[m] == file_open()[m]);
                            } else if m < 10 + e {
                                assert(s@.subrange(i as int + 9, j as int)[m - 9]
                                    == s@[i + 9 + (m - 9)]);
                                if m < 9 + e {
                                    assert(((file_open() + esc(name@))
                                        + file_close())[m] == (file_open() + esc(
                                        name@,
                                    ))[m]);
                                    assert((file_open() + esc(name@))[m] == esc(
                                        name@,
                                    )[m - 9]);
                                    assert((esc(name@) + seq!['"'])[m - 9] == esc(
                                        name@,
                                    )[m - 9]);
                                } else {
                                    assert(((file_open() + esc(name@))
                                        + file_close())[m] == file_close()[0]);
                                    assert((esc(name@) + seq!['"'])[m - 9]
                                        == seq!['"'][0]);
                                }
                            } else {
                                assert(((file_open() + esc(name@)) + file_close())[m]
                                    == file_close()[1]);
                            }
                        }
                        assert(s@.subrange(i as int, j + 1) =~= file_open() + esc(name@)
                            + file_close());
                        assert forall|v: IndexView| valid_node_at(s@, i as int, v)
                        implies (view_of_node(IndexType::File(name)) == v && j + 1 == i
                            + ser_view(v).len()) by {
                            lemma_ser_view_shape(v);
                            lemma_file_analysis(s@, i as int, v);
                        }
                    }
                    Some((IndexType::File(name), j + 1))
                } else {
                    proof {
                        assert forall|v: IndexView| valid_node_at(s@, i as int, v)
                        implies false by {
                            lemma_ser_view_shape(v);
                            lemma_file_analysis(s@, i as int, v);
                        }
                    }
                    None
                }
            },
        }
    } else if c2 == 'D' {
        if !match_at(s, "{\"Dir\":[\"", i, 9) {
            proof {
                assert forall|v: IndexView| valid_node_at(s@, i as int, v) implies false
                by {
                    lemma_ser_view_shape(v);
                    lemma_dir_analysis(s@, i as int, v);
                }
            }
            return None;
        }
        match parse_string(s, i + 9, len) {
            None => {
                proof {
                    assert forall|v: IndexView| valid_node_at(s@, i as int, v) implies
                    false by {
                        lemma_ser_view_shape(v);
                        lemma_dir_analysis(s@, i as int, v);
                    }
                }
                None
            },
            Some((name, j)) => {
                proof {
                    lemma_scan_string_sound(s@, i + 9);
                }
                if len - j < 2 || !(s.get_char(j) == ',' && s.get_char(j + 1) == '[') {
                    proof {
                        assert forall|v: IndexView| valid_node_at(s@, i as int, v)
                        implies false by {
                            lemma_ser_view_shape(v);
                            lemma_dir_analysis(s@, i as int, v);
                        }
                    }
                    return None;
                }
                match parse_list(s, j + 2, len) {
                    None => {
                        proof {
                            assert forall|v: IndexView| valid_node_at(s@, i as int, v)
                            implies false by {
                                lemma_ser_view_shape(v);
                                lemma_dir_analysis(s@, i as int, v);
                            }
                        }
                        None
                    },
                    Some((children, k)) => {
                        if len - k >= 3 && s.get_char(k) == ']' && s.get_char(k + 1)
                            == ']' && s.get_char(k + 2) == '}' {
                            proof {
                                let e = esc(name@).len() as int;
                                let lv = ser_view_list(view_of_list(children@));
                                let ll = lv.len() as int;
                                assert(s@.subrange(i as int + 9, j as int) == esc(name@)
                                    + seq!['"']);
                                assert(s@.subrange(i as int + 9, j as int).len() == (esc(
                                    name@,
                                ) + seq!['"']).len());
                                assert(j == i + 9 + e + 1);
                                assert(s@.subrange(j as int + 2, k as int) == lv);
                                assert(s@.subrange(j as int + 2, k as int).len()
                                    == lv.len());
                                assert(k == j + 2 + ll);
                                let w2 = dir_open() + esc(name@) + dir_mid() + lv
                                    + dir_close();
                                assert forall|m: int| 0 <= m < 15 + e + ll implies
                                s@.subrange(i as int, k + 3)[m] == w2[m] by {
                                    let ab = dir_open() + esc(name@);
                                    let abc = ab + dir_mid();
                                    let abcd = abc + lv;
                                    assert(s@.subrange(i as int, k + 3)[m] == s@[i
                                        + m]);
                                    assert(w2[m] == (abcd + dir_close())[m]);
                                    if m < 9 {
                                        assert(s@.subrange(i as int, i as int + 9)[m]
                                            == s@[i + m]);
                                        assert((abcd + dir_close())[m] == abcd[m]);
                                        assert((abc + lv)[m] == abc[m]);
                                        assert((ab + dir_mid())[m] == ab[m]);
                                        assert((dir_open() + esc(name@))[m]
                                            == dir_open()[m]);
                                    } else if m < 10 + e {
                                        assert(s@.subrange(i as int + 9, j as int)[m
                                            - 9] == s@[i + 9 + (m - 9)]);
                                        if m < 9 + e {
                                            assert((abcd + dir_close())[m] == abcd[m]);
                                            assert((abc + lv)[m] == abc[m]);
                                            assert((ab + dir_mid())[m] == ab[m]);
                                            assert((dir_open() + esc(name@))[m] == esc(
                                                name@,
                                            )[m - 9]);
                                            assert((esc(name@) + seq!['"'])[m - 9]
                                                == esc(name@)[m - 9]);
                                        } else {
                                            assert((abcd + dir_close())[m] == abcd[m]);
                                            assert((abc + lv)[m] == abc[m]);
                                            assert((ab + dir_mid())[m] == dir_mid()[0]);
                                            assert((esc(name@) + seq!['"'])[m - 9]
                                                == seq!['"'][0]);
                                        }
                                    } else if m == 10 + e {
                                        assert((abcd + dir_close())[m] == abcd[m]);
                                        assert((abc + lv)[m] == abc[m]);
                                        assert((ab + dir_mid())[m] == dir_mid()[1]);
                                    } else if m == 11 + e {
                                        assert((abcd + dir_close())[m] == abcd[m]);
                                        assert((abc + lv)[m] == abc[m]);
                                        assert((ab + dir_mid())[m] == dir_mid()[2]);
                                    } else if m < 12 + e + ll {
                                        assert(s@.subrange(j as int + 2, k as int)[m
                                            - (12 + e)] == s@[j + 2 + (m - (12 + e))]);
                                        assert((abcd + dir_close())[m] == abcd[m]);
                                        assert((abc + lv)[m] == lv[m - (12 + e)]);
                                    } else if m == 12 + e + ll {
                                        assert((abcd + dir_close())[m]
                                            == dir_close()[0]);
                                    } else if m == 13 + e + ll {
                                        assert((abcd + dir_close())[m]
                                            == dir_close()[1]);
                                    } else {
                                        assert((abcd + dir_close())[m]
                                            == dir_close()[2]);
                                    }
                                }
                                assert(s@.subrange(i as int, k + 3) =~= dir_open() + esc(
                                    name@,
                                ) + dir_mid() + ser_view_list(view_of_list(children@))
                                    + dir_close());
                                assert forall|v: IndexView| valid_node_at(
                                    s@,
                                    i as int,
                                    v,
                                ) implies (view_of_node(
                                    IndexType::Dir(name, children),
                                ) == v && k + 3 == i + ser_view(v).len()) by {
                                    lemma_ser_view_shape(v);
                                    lemma_dir_analysis(s@, i as int, v);
                                }
                            }
                            Some((IndexType::Dir(name, children), k + 3))
                        } else {
                            proof {
                                assert forall|v: IndexView| valid_node_at(
                                    s@,
                                    i as int,
                                    v,
                                ) implies false by {
                                    lemma_ser_view_shape(v);
                                    lemma_dir_analysis(s@, i as int, v);
                                }
                            }
                            None
                        }
                    },
                }
            },
        }
    } else {
        proof {
            assert forall|v: IndexView| valid_node_at(s@, i as int, v) implies false by {
                lemma_ser_view_shape(v);
            }
        }
        None
    }
}

proof fn lemma_list_first_elem(s: Seq<char>, i: int, vs: Seq<IndexView>)
    requires
        valid_list_at(s, i, vs),
        vs.len() >= 1,
    ensures
        valid_node_at(s, i, vs[0]),
{
    lemma_list_tail(vs);
    let n0 = ser_view(vs[0]);
    let tl = ser_view_tail(vs.drop_first());
    assert(ser_view_list(vs) == n0 + tl);
    assert(s.subrange(i, i + n0.len() as int) =~= n0) by {
        assert forall|m: int| 0 <= m < n0.len() implies s.subrange(
            i,
            i + n0.len() as int,
        )[m] == n0[m] by {
            assert(s.subrange(i, i + n0.len() as int)[m] == s[i + m]);
            assert(s.subrange(i, i + ser_view_list(vs).len() as int)[m] == s[i + m]);
            assert((n0 + tl)[m] == n0[m]);
        }
    }
}

proof fn lemma_list_elem_at(s: Seq<char>, i: int, vs: Seq<IndexView>, k: int)
    requires
        valid_list_at(s, i, vs),
        1 <= k < vs.len(),
    ensures
        ({
            let pre = ser_view_list(vs.take(k)).len() as int;
            &&& s[i + pre] == ','
            &&& valid_node_at(s, i + pre + 1, vs[k])
        }),
{
    lemma_list_split(vs, k);
    let pfx = ser_view_list(vs.take(k));
    let pre = pfx.len() as int;
    let nk = ser_view(vs[k]);
    let tl = ser_view_tail(vs.skip(k + 1));
    let full = ser_view_list(vs);
    let a = pfx + seq![','];
    let b = a + nk;
    assert(full == b + tl);
    assert(s.subrange(i, i + full.len() as int)[pre] == s[i + pre]);
    assert((b + tl)[pre] == b[pre]);
    assert((a + nk)[pre] == a[pre]);
    assert((pfx + seq![','])[pre] == seq![','][0]);
    assert(s.subrange(i + pre + 1, i + pre + 1 + nk.len() as int) =~= nk) by {
        assert forall|m: int| 0 <= m < nk.len() implies s.subrange(
            i + pre + 1,
            i + pre + 1 + nk.len() as int,
        )[m] == nk[m] by {
            assert(s.subrange(i + pre + 1, i + pre + 1 + nk.len() as int)[m] == s[i
                + pre + 1 + m]);
            assert(s.subrange(i, i + full.len() as int)[pre + 1 + m] == s[i + (pre + 1
                + m)]);
            assert((b + tl)[pre + 1 + m] == b[pre + 1 + m]);
            assert((a + nk)[pre + 1 + m] == nk[m]);
        }
    }
}

/// A comma-separated child list, read at `i` and ending right before a
/// closing bracket: exactly the children whose text stands there.
fn parse_list(s: &str, i: usize, len: usize) -> (r: Option<(Vec<IndexType>, usize)>)
    requires
        len == s@.len(),
        i <= len,
    ensures
        (match r {
            Some(p) => i <= p.1 <= len && s@.subrange(i as int, p.1 as int)
                == ser_view_list(view_of_list(p.0@)),
            None => true,
        }),
        forall|vs: Seq<IndexView>|
            valid_list_at(s@, i as int, vs) ==> (match r {
                Some(p) => view_of_list(p.0@) == vs && p.1 as int == i + ser_view_list(
                    vs,
                ).len(),
                None => false,
            }),
    decreases len - i, 1int,
{
    if i >= len {
        return None;
    }
    if s.get_char(i) == ']' {
        let empty: Vec<IndexType> = Vec::new();
        proof {
            assert(view_of_list(empty@) =~= Seq::<IndexView>::empty());
            assert(s@.subrange(i as int, i as int) =~= ser_view_list(view_of_list(
                empty@,
            )));
            assert forall|vs: Seq<IndexView>| valid_list_at(s@, i as int, vs) implies
            (view_of_list(empty@) == vs && i as int == i + ser_view_list(vs).len()) by {
                if vs.len() >= 1 {
                    lemma_list_tail(vs);
                    lemma_ser_view_shape(vs[0]);
                    assert((ser_view(vs[0]) + ser_view_tail(vs.drop_first()))[0]
                        == ser_view(vs[0])[0]);
                    assert(s@.subrange(i as int, i + ser_view_list(vs).len() as int)[0]
                        == s@[i as int]);
                }
                assert(vs =~= view_of_list(empty@));
            }
        }
        return Some((empty, i));
    }
    let mut items: Vec<IndexType> = Vec::new();
    let mut pos: usize;
    match parse_node(s, i, len) {
        None => {
            proof {
                assert forall|vs: Seq<IndexView>| valid_list_at(s@, i as int, vs)
                implies false by {
                    if vs.len() == 0 {
                        assert(s@[i as int] == ']');
                    } else {
                        lemma_list_first_elem(s@, i as int, vs);
                    }
                }
            }
            return None;
        },
        Some((t0, j0)) => {
            items.push(t0);
            pos = j0;
            proof {
                assert(items@.drop_last() =~= Seq::<IndexType>::empty());
                assert(view_of_list(Seq::<IndexType>::empty())
                    =~= Seq::<IndexView>::empty());
                assert(view_of_list(items@) =~= seq![view_of_node(t0)]);
                assert(ser_view_list(view_of_list(items@)) == ser_view(view_of_node(
                    t0,
                )));
                assert forall|vs: Seq<IndexView>| valid_list_at(s@, i as int, vs)
                implies (items@.len() <= vs.len() && view_of_list(items@) == vs.take(
                    items@.len() as int,
                )) by {
                    if vs.len() == 0 {
                        assert(s@[i as int] == ']');
                    } else {
                        lemma_list_first_elem(s@, i as int, vs);
                        assert(view_of_node(t0) == vs[0]);
                        assert(view_of_list(items@) =~= vs.take(1));
                    }
                }
            }
        },
    }
    while pos < len && s.get_char(pos) == ','
        invariant
            i <= pos <= len,
            len == s@.len(),
            items@.len() >= 1,
            s@.subrange(i as int, pos as int) == ser_view_list(view_of_list(items@)),
            forall|vs: Seq<IndexView>|
                valid_list_at(s@, i as int, vs) ==> items@.len() <= vs.len()
                    && view_of_list(items@) == vs.take(items@.len() as int),
        decreases len - pos,
    {
        let ghost itemsv = view_of_list(items@);
        let ghost k = items@.len() as int;
        proof {
            assert forall|vs: Seq<IndexView>| valid_list_at(s@, i as int, vs) implies k
                < vs.len() && valid_node_at(s@, pos as int + 1, vs[k]) by {
                if k == vs.len() {
                    assert(vs.take(k) =~= vs);
                    assert(pos as int == i + ser_view_list(vs).len());
                    assert(s@[i + ser_view_list(vs).len()] == ']');
                    assert(false);
                } else {
                    lemma_list_elem_at(s@, i as int, vs, k);
                    assert(ser_view_list(vs.take(k)) == ser_view_list(itemsv));
                    assert(pos as int == i + ser_view_list(vs.take(k)).len());
                }
            }
        }
        match parse_node(s, pos + 1, len) {
            None => {
                proof {
                    assert forall|vs: Seq<IndexView>| valid_list_at(s@, i as int, vs)
                    implies false by {
                        assert(valid_node_at(s@, pos as int + 1, vs[k]));
                    }
                }
                return None;
            },
            Some((t, j)) => {
                let ghost oldpos = pos as int;
                let ghost itemsseq = items@;
                items.push(t);
                pos = j;
                proof {
                    assert(items@.drop_last() =~= itemsseq);
                    assert(view_of_list(items@) == itemsv.push(view_of_node(t)));
                    assert(view_of_list(items@).drop_last() =~= itemsv);
                    assert(view_of_list(items@).len() >= 2);
                    assert(ser_view_list(view_of_list(items@)) == ser_view_list(itemsv)
                        + seq![','] + ser_view(view_of_node(t)));
                    let pp = ser_view_list(itemsv);
                    let nn = ser_view(view_of_node(t));
                    assert(s@.subrange(oldpos + 1, pos as int) == nn);
                    assert forall|m: int| 0 <= m < pos as int - i implies s@.subrange(
                        i as int,
                        pos as int,
                    )[m] == (pp + seq![','] + nn)[m] by {
                        assert(s@.subrange(i as int, pos as int)[m] == s@[i + m]);
                        if m < pp.len() {
                            assert(s@.subrange(i as int, oldpos)[m] == s@[i + m]);
                            assert(((pp + seq![',']) + nn)[m] == (pp + seq![','])[m]);
                            assert((pp + seq![','])[m] == pp[m]);
                        } else if m == pp.len() {
                            assert(((pp + seq![',']) + nn)[m] == (pp + seq![','])[m]);
                            assert((pp + seq![','])[m] == seq![','][0]);
                        } else {
                            assert(s@.subrange(oldpos + 1, pos as int)[m - pp.len() - 1]
                                == s@[oldpos + 1 + (m - pp.len() - 1)]);
                            assert(((pp + seq![',']) + nn)[m] == nn[m - pp.len() - 1]);
                        }
                    }
                    assert(s@.subrange(i as int, pos as int) =~= pp + seq![','] + nn);
                    assert forall|vs: Seq<IndexView>| valid_list_at(s@, i as int, vs)
                    implies (items@.len() <= vs.len() && view_of_list(items@)
                        == vs.take(items@.len() as int)) by {
                        assert(k < vs.len() && valid_node_at(s@, oldpos + 1, vs[k]));
                        assert(view_of_node(t) == vs[k]);
                        assert(vs.take(k + 1).drop_last() =~= vs.take(k));
                        assert(view_of_list(items@) =~= vs.take(k + 1));
                    }
                }
            },
        }
    }
    proof {
        assert forall|vs: Seq<IndexView>| valid_list_at(s@, i as int, vs) implies
        (view_of_list(items@) == vs && pos as int == i + ser_view_list(vs).len()) by {
            let k = items@.len() as int;
            if k < vs.len() {
                lemma_list_elem_at(s@, i as int, vs, k);
                assert(ser_view_list(vs.take(k)) == ser_view_list(view_of_list(
                    items@,
                )));
                assert(pos as int == i + ser_view_list(vs.take(k)).len());
                assert(s@[pos as int] == ',');
                lemma_ser_view_shape(vs[k]);
                assert(pos as int + 1 + ser_view(vs[k]).len() <= s@.len());
                assert(pos < len);
                assert(false);
            } else {
                assert(vs.take(k) =~= vs);
            }
        }
    }
    Some((items, pos))
}

proof fn lemma_tail_is_comma_list(ws: Seq<IndexView>)
    requires
        ws.len() >= 1,
    ensures
        ser_view_tail(ws) == seq![','] + ser_view_list(ws),
{
    lemma_list_tail(ws);
    assert(ser_view_tail(ws) =~= seq![','] + ser_view_list(ws));
}

proof fn lemma_list_decompose(s: Seq<char>, i: int, vs: Seq<IndexView>)
    requires
        valid_list_at(s, i, vs),
        vs.len() >= 2,
    ensures
        ({
            let n0 = ser_view(vs[0]).len() as int;
            s[i + n0] == ',' && valid_list_at(s, i + n0 + 1, vs.skip(1))
        }),
{
    lemma_list_tail(vs);
    assert(vs.drop_first() =~= vs.skip(1));
    lemma_tail_is_comma_list(vs.skip(1));
    let n0s = ser_view(vs[0]);
    let n0 = n0s.len() as int;
    let rest = ser_view_list(vs.skip(1));
    let full = ser_view_list(vs);
    assert(full == n0s + (seq![','] + rest));
    assert(full.len() == n0 + 1 + rest.len());
    assert(s.subrange(i, i + full.len() as int)[n0] == s[i + n0]);
    assert((n0s + (seq![','] + rest))[n0] == (seq![','] + rest)[0]);
    assert(s[i + n0] == ',');
    assert(s.subrange(i + n0 + 1, i + n0 + 1 + rest.len() as int) =~= rest) by {
        assert forall|m: int| 0 <= m < rest.len() implies s.subrange(
            i + n0 + 1,
            i + n0 + 1 + rest.len() as int,
        )[m] == rest[m] by {
            assert(s.subrange(i + n0 + 1, i + n0 + 1 + rest.len() as int)[m] == s[i + n0
                + 1 + m]);
            assert(s.subrange(i, i + full.len() as int)[n0 + 1 + m] == s[i + (n0 + 1
                + m)]);
            assert((n0s + (seq![','] + rest))[n0 + 1 + m] == (seq![','] + rest)[1 + m]);
            assert((seq![','] + rest)[1 + m] == rest[m]);
        }
    }
}

proof fn lemma_node_unique(s: Seq<char>, i: int, v1: IndexView, v2: IndexView)
    requires
        valid_node_at(s, i, v1),
        valid_node_at(s, i, v2),
    ensures
        v1 == v2,
    decreases v1, 1int,
{
    lemma_ser_view_shape(v1);
    lemma_ser_view_shape(v2);
    assert(s.subrange(i, i + ser_view(v1).len() as int)[2] == s[i + 2]);
    assert(s.subrange(i, i + ser_view(v2).len() as int)[2] == s[i + 2]);
    if v1 is File {
        assert(v2 is File);
        lemma_file_analysis(s, i, v1);
        lemma_file_analysis(s, i, v2);
        assert(v1->File_name == v2->File_name);
        assert(v1 == (IndexView::File { name: v1->File_name }));
        assert(v2 == (IndexView::File { name: v2->File_name }));
    } else {
        assert(v2 is Dir);
        lemma_dir_analysis(s, i, v1);
        lemma_dir_analysis(s, i, v2);
        let nv = v1->Dir_name;
        assert(v2->Dir_name == nv);
        let e = esc(nv).len() as int;
        lemma_list_unique(s, i + 9 + e + 3, v1->Dir_entries, v2->Dir_entries);
        assert(v1 == (IndexView::Dir { name: v1->Dir_name, entries: v1->Dir_entries }));
        assert(v2 == (IndexView::Dir { name: v2->Dir_name, entries: v2->Dir_entries }));
    }
}

proof fn lemma_list_unique(s: Seq<char>, i: int, vs1: Seq<IndexView>, vs2: Seq<
    IndexView,
>)
    requires
        valid_list_at(s, i, vs1),
        valid_list_at(s, i, vs2),
    ensures
        vs1 == vs2,
    decreases vs1, 0int,
{
    if vs1.len() == 0 {
        if vs2.len() >= 1 {
            lemma_list_first_elem(s, i, vs2);
            lemma_ser_view_shape(vs2[0]);
            assert(s.subrange(i, i + ser_view(vs2[0]).len() as int)[0] == s[i]);
            assert(false);
        }
        assert(vs1 =~= vs2);
    } else if vs2.len() == 0 {
        lemma_list_first_elem(s, i, vs1);
        lemma_ser_view_shape(vs1[0]);
        assert(s.subrange(i, i + ser_view(vs1[0]).len() as int)[0] == s[i]);
        assert(false);
    } else {
        lemma_list_first_elem(s, i, vs1);
        lemma_list_first_elem(s, i, vs2);
        lemma_node_unique(s, i, vs1[0], vs2[0]);
        let n0 = ser_view(vs1[0]).len() as int;
        if vs1.len() == 1 && vs2.len() == 1 {
            assert(vs1 =~= vs2);
        } else if vs1.len() == 1 {
            lemma_list_decompose(s, i, vs2);
            assert(s[i + ser_view_list(vs1).len()] == ']');
            assert(false);
        } else if vs2.len() == 1 {
            lemma_list_decompose(s, i, vs1);
            assert(s[i + ser_view_list(vs2).len()] == ']');
            assert(false);
        } else {
            lemma_list_decompose(s, i, vs1);
            lemma_list_decompose(s, i, vs2);
            lemma_list_unique(s, i + n0 + 1, vs1.skip(1), vs2.skip(1));
            assert(vs1.skip(1).len() == vs2.skip(1).len());
            assert forall|m: int| 0 <= m < vs1.len() implies vs1[m] == vs2[m] by {
                if m >= 1 {
                    assert(vs1.skip(1)[m - 1] == vs1[m]);
                    assert(vs2.skip(1)[m - 1] == vs2[m]);
                }
            }
            assert(vs1 =~= vs2);
        }
    }
}

/// A snapshot text stands for exactly one tree: two trees that write the
/// same text are the same tree. Together with the reader's contract this
/// is why a snapshot loads back as the tree it was saved from, never as
/// another one.
pub proof fn lemma_snapshot_determines_tree(v1: IndexView, v2: IndexView)
    requires
        ser_view(v1) == ser_view(v2),
    ensures
        v1 == v2,
{
    let s = ser_view(v1);
    assert(s.subrange(0, s.len() as int) =~= s);
    assert(valid_node_at(s, 0, v1));
    assert(valid_node_at(s, 0, v2));
    lemma_node_unique(s, 0, v1, v2);
}

/// Reads a whole snapshot: exactly the tree it was written from, or the
/// corruption error when the text is no snapshot.
pub fn parse_index(s: &str) -> (r: Result<IndexType, IndexError>)
    ensures
        (match r {
            Ok(t) => s@ == ser_view(view_of_node(t)),
            Err(e) => e == IndexError::Corrupt && (forall|v: IndexView|
                s@ != ser_view(v)),
        }),
        forall|v: IndexView|
            s@ == ser_view(v) ==> (match r {
                Ok(t) => view_of_node(t) == v,
                Err(_) => false,
            }),
{
    let len = s.unicode_len();
    match parse_node(s, 0, len) {
        None => {
            proof {
                assert forall|v: IndexView| s@ != ser_view(v) by {
                    if s@ == ser_view(v) {
                        assert(s@.subrange(0, ser_view(v).len() as int) =~= ser_view(
                            v,
                        ));
                        assert(valid_node_at(s@, 0, v));
                    }
                }
            }
            Err(IndexError::Corrupt)
        },
        Some((t, j)) => {
            if j == len {
                proof {
                    assert(s@.subrange(0, len as int) =~= s@);
                    assert forall|v: IndexView| s@ == ser_view(v) implies view_of_node(
                        t,
                    ) == v by {
                        assert(s@.subrange(0, ser_view(v).len() as int) =~= ser_view(
                            v,
                        ));
                        assert(valid_node_at(s@, 0, v));
                    }
                }
                Ok(t)
            } else {
                proof {
                    assert forall|v: IndexView| s@ != ser_view(v) by {
                        if s@ == ser_view(v) {
                            assert(s@.subrange(0, ser_view(v).len() as int) =~= ser_view(
                                v,
                            ));
                            assert(valid_node_at(s@, 0, v));
                        }
                    }
                }
                Err(IndexError::Corrupt)
            }
        },
    }
}

} // verus!
