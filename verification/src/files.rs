//! The on-disk shape of the two store files.
//!
//! The ledger file holds one record per line, the two fields separated by
//! whitespace. The pointer file holds a single such record. Reading takes
//! any field content back that writing can produce; a line with only one
//! field is a corruption sign and is skipped without giving up the rest of
//! the file.
use crate::ledger::Entry;
use crate::ledger::EntryV;
use crate::ledger::entries_view;
use crate::ledger::wf_entries;
use crate::text::is_token;
use crate::text::is_ws_char;
use vstd::prelude::*;

verus! {

/// Length of the leading run of field separators.
pub open spec fn ws_prefix(s: Seq<char>) -> nat
    decreases s.len(),
{
    if s.len() == 0 {
        0
    } else if is_ws_char(s[0]) {
        1 + ws_prefix(s.drop_first())
    } else {
        0
    }
}

/// Length of the leading run of field characters (neither separator nor
/// line break).
pub open spec fn tok_prefix(s: Seq<char>) -> nat
    decreases s.len(),
{
    if s.len() == 0 {
        0
    } else if !is_ws_char(s[0]) && s[0] != '\n' {
        1 + tok_prefix(s.drop_first())
    } else {
        0
    }
}

/// Length of the prefix before the first line break, or the whole length
/// when there is none.
pub open spec fn first_nl(s: Seq<char>) -> nat
    decreases s.len(),
{
    if s.len() == 0 {
        0
    } else if s[0] == '\n' {
        0
    } else {
        1 + first_nl(s.drop_first())
    }
}

/// The lines of a file's content, line breaks stripped. A trailing line
/// break opens no extra empty line.
pub open spec fn spec_lines(s: Seq<char>) -> Seq<Seq<char>>
    decreases s.len(),
{
    if s.len() == 0 {
        Seq::empty()
    } else {
        let j = first_nl(s) as int;
        if j >= s.len() {
            seq![s]
        } else {
            seq![s.subrange(0, j)] + spec_lines(s.subrange(j + 1, s.len() as int))
        }
    }
}

/// A line holds nothing but separators.
pub open spec fn line_blank(l: Seq<char>) -> bool {
    ws_prefix(l) >= l.len()
}

/// The first two fields of a line, if it has two.
pub open spec fn line_fields(l: Seq<char>) -> Option<(Seq<char>, Seq<char>)> {
    let a0 = ws_prefix(l) as int;
    if a0 >= l.len() {
        None
    } else {
        let r1 = l.skip(a0);
        let t1 = tok_prefix(r1) as int;
        let r2 = r1.skip(t1);
        let b0 = ws_prefix(r2) as int;
        if b0 >= r2.len() {
            None
        } else {
            let r3 = r2.skip(b0);
            Some((r1.subrange(0, t1), r3.subrange(0, tok_prefix(r3) as int)))
        }
    }
}

/// A line that carries something, but not two whole fields.
pub open spec fn line_malformed(l: Seq<char>) -> bool {
    !line_blank(l) && line_fields(l) is None
}

/// The records the lines carry, in order; lines without two fields
/// contribute nothing and stop nothing.
pub open spec fn entries_of_lines(ls: Seq<Seq<char>>) -> Seq<EntryV>
    decreases ls.len(),
{
    if ls.len() == 0 {
        Seq::empty()
    } else {
        match line_fields(ls[0]) {
            Some(p) => seq![EntryV { version: p.0, dir: p.1 }] + entries_of_lines(ls.drop_first()),
            None => entries_of_lines(ls.drop_first()),
        }
    }
}

/// How many lines are malformed.
pub open spec fn malformed_of_lines(ls: Seq<Seq<char>>) -> nat
    decreases ls.len(),
{
    if ls.len() == 0 {
        0
    } else {
        (if line_malformed(ls[0]) {
            1nat
        } else {
            0nat
        }) + malformed_of_lines(ls.drop_first())
    }
}

/// The ledger a file's content denotes.
pub open spec fn ledger_of(content: Seq<char>) -> Seq<EntryV> {
    entries_of_lines(spec_lines(content))
}

/// One rendered ledger line, line break included.
pub open spec fn render_entry(e: EntryV) -> Seq<char> {
    e.version + seq![' '] + e.dir + seq!['\n']
}

/// The full rendered ledger file.
pub open spec fn render_entries(es: Seq<EntryV>) -> Seq<char>
    decreases es.len(),
{
    if es.len() == 0 {
        Seq::empty()
    } else {
        render_entry(es[0]) + render_entries(es.drop_first())
    }
}

/// The rendered pointer record: the two fields and nothing after them.
pub open spec fn render_pointer(v: Seq<char>, d: Seq<char>) -> Seq<char> {
    v + seq![' '] + d
}

/// Pins `ws_prefix` down from what a scan observed.
pub proof fn lemma_ws_prefix_is(s: Seq<char>, m: int)
    requires
        0 <= m <= s.len(),
        forall|k: int| 0 <= k < m ==> is_ws_char(#[trigger] s[k]),
        m < s.len() ==> !is_ws_char(s[m]),
    ensures
        ws_prefix(s) == m,
    decreases m,
{
    if s.len() == 0 {
    } else if m == 0 {
    } else {
        assert(is_ws_char(s[0]));
        assert(forall|k: int| 0 <= k < m - 1 ==> is_ws_char(#[trigger] s.drop_first()[k]));
        lemma_ws_prefix_is(s.drop_first(), m - 1);
    }
}

/// Pins `tok_prefix` down from what a scan observed.
pub proof fn lemma_tok_prefix_is(s: Seq<char>, m: int)
    requires
        0 <= m <= s.len(),
        forall|k: int| 0 <= k < m ==> !is_ws_char(#[trigger] s[k]) && s[k] != '\n',
        m < s.len() ==> is_ws_char(s[m]) || s[m] == '\n',
    ensures
        tok_prefix(s) == m,
    decreases m,
{
    if s.len() == 0 {
    } else if m == 0 {
    } else {
        assert(forall|k: int|
            0 <= k < m - 1 ==> !is_ws_char(#[trigger] s.drop_first()[k]) && s.drop_first()[k]
                != '\n');
        lemma_tok_prefix_is(s.drop_first(), m - 1);
    }
}

/// Pins `first_nl` down from what a scan observed.
pub proof fn lemma_first_nl_is(s: Seq<char>, m: int)
    requires
        0 <= m <= s.len(),
        forall|k: int| 0 <= k < m ==> #[trigger] s[k] != '\n',
        m < s.len() ==> s[m] == '\n',
    ensures
        first_nl(s) == m,
    decreases m,
{
    if s.len() == 0 {
    } else if m == 0 {
    } else {
        assert(forall|k: int| 0 <= k < m - 1 ==> #[trigger] s.drop_first()[k] != '\n');
        lemma_first_nl_is(s.drop_first(), m - 1);
    }
}

/// `first_nl` stays within the sequence and finds a real break.
pub proof fn lemma_first_nl_bounds(s: Seq<char>)
    ensures
        first_nl(s) <= s.len(),
        forall|k: int| 0 <= k < first_nl(s) ==> #[trigger] s[k] != '\n',
        first_nl(s) < s.len() ==> s[first_nl(s) as int] == '\n',
    decreases s.len(),
{
    if s.len() > 0 && s[0] != '\n' {
        lemma_first_nl_bounds(s.drop_first());
        assert(forall|k: int|
            1 <= k < first_nl(s) ==> #[trigger] s[k] == s.drop_first()[k - 1] && s.drop_first()[k
                - 1] != '\n');
    }
}

/// `ws_prefix` stays within the sequence; everything before it is a
/// separator, and what it stops at is not.
pub proof fn lemma_ws_prefix_bounds(s: Seq<char>)
    ensures
        ws_prefix(s) <= s.len(),
        forall|k: int| 0 <= k < ws_prefix(s) ==> is_ws_char(#[trigger] s[k]),
        ws_prefix(s) < s.len() ==> !is_ws_char(s[ws_prefix(s) as int]),
    decreases s.len(),
{
    if s.len() > 0 && is_ws_char(s[0]) {
        lemma_ws_prefix_bounds(s.drop_first());
        assert(forall|k: int|
            1 <= k < ws_prefix(s) ==> #[trigger] s[k] == s.drop_first()[k - 1] && is_ws_char(
                s.drop_first()[k - 1],
            ));
    }
}

/// `tok_prefix` stays within the sequence; everything before it is field
/// content, and what it stops at is not.
pub proof fn lemma_tok_prefix_bounds(s: Seq<char>)
    ensures
        tok_prefix(s) <= s.len(),
        forall|k: int|
            0 <= k < tok_prefix(s) ==> !is_ws_char(#[trigger] s[k]) && s[k] != '\n',
        tok_prefix(s) < s.len() ==> (is_ws_char(s[tok_prefix(s) as int]) || s[tok_prefix(
            s,
        ) as int] == '\n'),
    decreases s.len(),
{
    if s.len() > 0 && !is_ws_char(s[0]) && s[0] != '\n' {
        lemma_tok_prefix_bounds(s.drop_first());
        assert(forall|k: int|
            1 <= k < tok_prefix(s) ==> #[trigger] s[k] == s.drop_first()[k - 1] && !is_ws_char(
                s.drop_first()[k - 1],
            ) && s.drop_first()[k - 1] != '\n');
    }
}

/// Fields read from a line without line breaks are tokens: non-empty and
/// free of separators.
pub proof fn lemma_line_fields_tokens(l: Seq<char>)
    requires
        forall|k: int| 0 <= k < l.len() ==> #[trigger] l[k] != '\n',
    ensures
        line_fields(l) matches Some(p) ==> is_token(p.0) && is_token(p.1),
{
    if line_fields(l) is Some {
        lemma_ws_prefix_bounds(l);
        let a0 = ws_prefix(l) as int;
        let r1 = l.skip(a0);
        assert(forall|k: int| 0 <= k < r1.len() ==> #[trigger] r1[k] == l[a0 + k]);
        lemma_tok_prefix_bounds(r1);
        let t1 = tok_prefix(r1) as int;
        assert(r1.len() > 0);
        assert(!is_ws_char(r1[0]) && r1[0] != '\n');
        assert(t1 >= 1);
        let tok1 = r1.subrange(0, t1);
        assert(forall|k: int| 0 <= k < tok1.len() ==> #[trigger] tok1[k] == r1[k]);
        assert(is_token(tok1));
        let r2 = r1.skip(t1);
        assert(forall|k: int| 0 <= k < r2.len() ==> #[trigger] r2[k] == l[a0 + t1 + k]);
        lemma_ws_prefix_bounds(r2);
        let b0 = ws_prefix(r2) as int;
        assert(b0 < r2.len());
        let r3 = r2.skip(b0);
        assert(forall|k: int| 0 <= k < r3.len() ==> #[trigger] r3[k] == r2[b0 + k]);
        lemma_tok_prefix_bounds(r3);
        assert(r3.len() > 0);
        assert(!is_ws_char(r3[0]) && r3[0] != '\n');
        assert(tok_prefix(r3) >= 1);
        let tok2 = r3.subrange(0, tok_prefix(r3) as int);
        assert(forall|k: int| 0 <= k < tok2.len() ==> #[trigger] tok2[k] == r3[k]);
        assert(is_token(tok2));
    }
}

/// No line of a split content carries a line break.
pub proof fn lemma_lines_no_nl(s: Seq<char>)
    ensures
        forall|i: int, k: int|
            0 <= i < spec_lines(s).len() && 0 <= k < spec_lines(s)[i].len()
                ==> #[trigger] spec_lines(s)[i][k] != '\n',
    decreases s.len(),
{
    if s.len() > 0 {
        lemma_first_nl_bounds(s);
        let j = first_nl(s) as int;
        if j >= s.len() {
            assert(spec_lines(s) == seq![s]);
            assert forall|i: int, k: int|
                0 <= i < spec_lines(s).len() && 0 <= k < spec_lines(s)[i].len()
                    implies #[trigger] spec_lines(s)[i][k] != '\n' by {
                assert(spec_lines(s)[i] == s);
            }
        } else {
            let head = s.subrange(0, j);
            let tail = s.subrange(j + 1, s.len() as int);
            lemma_lines_no_nl(tail);
            assert(spec_lines(s) == seq![head] + spec_lines(tail));
            assert forall|i: int, k: int|
                0 <= i < spec_lines(s).len() && 0 <= k < spec_lines(s)[i].len()
                    implies #[trigger] spec_lines(s)[i][k] != '\n' by {
                if i == 0 {
                    assert(spec_lines(s)[0] == head);
                    assert(head[k] == s[k]);
                } else {
                    assert(spec_lines(s)[i] == spec_lines(tail)[i - 1]);
                }
            }
        }
    }
}

/// Records read from lines without line breaks are well formed.
proof fn lemma_entries_of_lines_wf(ls: Seq<Seq<char>>)
    requires
        forall|i: int, k: int|
            0 <= i < ls.len() && 0 <= k < ls[i].len() ==> #[trigger] ls[i][k] != '\n',
    ensures
        wf_entries(entries_of_lines(ls)),
    decreases ls.len(),
{
    if ls.len() > 0 {
        assert(forall|k: int| 0 <= k < ls[0].len() ==> #[trigger] ls[0][k] != '\n');
        lemma_line_fields_tokens(ls[0]);
        assert forall|i: int, k: int|
            0 <= i < ls.drop_first().len() && 0 <= k < ls.drop_first()[i].len()
                implies #[trigger] ls.drop_first()[i][k] != '\n' by {
            assert(ls.drop_first()[i] == ls[i + 1]);
        }
        lemma_entries_of_lines_wf(ls.drop_first());
        match line_fields(ls[0]) {
            Some(p) => {
                let e = EntryV { version: p.0, dir: p.1 };
                let r = seq![e] + entries_of_lines(ls.drop_first());
                assert forall|i: int| 0 <= i < r.len() implies crate::ledger::wf_entry(
                    #[trigger] r[i],
                ) by {
                    if i == 0 {
                        assert(r[0] == e);
                    } else {
                        assert(r[i] == entries_of_lines(ls.drop_first())[i - 1]);
                    }
                }
            },
            None => {},
        }
    }
}

/// Whatever a ledger file holds, the records read from it are well formed.
pub proof fn lemma_ledger_of_wf(content: Seq<char>)
    ensures
        wf_entries(ledger_of(content)),
{
    lemma_lines_no_nl(content);
    lemma_entries_of_lines_wf(spec_lines(content));
}

/// Whatever a pointer file holds, a record read from it is two tokens.
pub proof fn lemma_pointer_fields_tokens(content: Seq<char>)
    ensures
        line_fields(spec_pointer_line(content)) matches Some(p) ==> is_token(p.0) && is_token(
            p.1,
        ),
{
    let l = spec_pointer_line(content);
    if line_fields(l) is Some {
        if spec_lines(content).len() == 0 {
            assert(l == Seq::<char>::empty());
        } else {
            lemma_lines_no_nl(content);
            assert(forall|k: int| 0 <= k < l.len() ==> #[trigger] l[k] != '\n');
            lemma_line_fields_tokens(l);
        }
    }
}

/// A rendered line carries exactly its record's two fields.
proof fn lemma_line_fields_render(v: Seq<char>, d: Seq<char>)
    requires
        is_token(v),
        is_token(d),
    ensures
        line_fields(v + seq![' '] + d) == Some((v, d)),
        !line_blank(v + seq![' '] + d),
{
    let l = v + seq![' '] + d;
    assert(l.len() == v.len() + 1 + d.len());
    assert(l[0] == v[0]);
    lemma_ws_prefix_is(l, 0);
    let r1 = l.skip(0);
    assert(r1 =~= l);
    assert forall|k: int| 0 <= k < v.len() implies !is_ws_char(#[trigger] l[k]) && l[k] != '\n' by {
        assert(l[k] == v[k]);
    }
    assert(l[v.len() as int] == ' ');
    lemma_tok_prefix_is(l, v.len() as int);
    assert(l.subrange(0, v.len() as int) =~= v);
    let r2 = r1.skip(v.len() as int);
    assert(r2.len() == 1 + d.len());
    assert(r2[0] == ' ');
    assert(r2[1] == d[0]);
    lemma_ws_prefix_is(r2, 1);
    let r3 = r2.skip(1);
    assert(r3 =~= d);
    assert(forall|k: int| 0 <= k < d.len() ==> !is_ws_char(#[trigger] d[k]) && d[k] != '\n');
    lemma_tok_prefix_is(d, d.len() as int);
    assert(r3.subrange(0, tok_prefix(r3) as int) =~= d);
}

/// Reading a rendered ledger gives the records back line for line, and no
/// line counts as malformed: what the store writes, it reads.
pub proof fn lemma_ledger_round_trip(es: Seq<EntryV>)
    requires
        wf_entries(es),
    ensures
        spec_lines(render_entries(es)).len() == es.len(),
        forall|i: int|
            0 <= i < es.len() ==> line_fields(#[trigger] spec_lines(render_entries(es))[i])
                == Some((es[i].version, es[i].dir)),
        ledger_of(render_entries(es)) == es,
        malformed_of_lines(spec_lines(render_entries(es))) == 0,
    decreases es.len(),
{
    if es.len() == 0 {
        assert(render_entries(es) =~= Seq::<char>::empty());
        assert(spec_lines(Seq::<char>::empty()) =~= Seq::<Seq<char>>::empty());
    } else {
        let e = es[0];
        let line = e.version + seq![' '] + e.dir;
        let rest = render_entries(es.drop_first());
        let r = render_entries(es);
        assert(r == render_entry(e) + rest);
        assert(r =~= line + seq!['\n'] + rest);
        assert(wf_entries(es.drop_first())) by {
            assert(forall|i: int|
                0 <= i < es.drop_first().len() ==> #[trigger] es.drop_first()[i] == es[i + 1]);
        }
        lemma_ledger_round_trip(es.drop_first());
        assert forall|k: int| 0 <= k < line.len() implies #[trigger] r[k] != '\n' by {
            assert(r[k] == line[k]);
            if k < e.version.len() {
                assert(line[k] == e.version[k]);
            } else if k == e.version.len() {
                assert(line[k] == ' ');
            } else {
                assert(line[k] == e.dir[k - e.version.len() - 1]);
            }
        }
        assert(r[line.len() as int] == '\n');
        lemma_first_nl_is(r, line.len() as int);
        assert(line.len() < r.len());
        assert(spec_lines(r) == seq![r.subrange(0, line.len() as int)] + spec_lines(
            r.subrange(line.len() as int + 1, r.len() as int),
        ));
        assert(r.subrange(0, line.len() as int) =~= line);
        assert(r.subrange(line.len() as int + 1, r.len() as int) =~= rest);
        let ls = spec_lines(rest);
        assert(spec_lines(r) == seq![line] + ls);
        lemma_line_fields_render(e.version, e.dir);
        lemma_entries_lines_head(line, ls);
        assert(EntryV { version: e.version, dir: e.dir } == e);
        assert(seq![e] + es.drop_first() =~= es);
        assert forall|i: int|
            0 <= i < es.len() implies line_fields(#[trigger] spec_lines(r)[i]) == Some(
            (es[i].version, es[i].dir),
        ) by {
            if i == 0 {
                assert(spec_lines(r)[0] == line);
            } else {
                assert(spec_lines(r)[i] == ls[i - 1]);
                assert(es[i] == es.drop_first()[i - 1]);
            }
        }
    }
}

/// Reading a rendered pointer record gives both fields back.
pub proof fn lemma_pointer_round_trip(v: Seq<char>, d: Seq<char>)
    requires
        is_token(v),
        is_token(d),
    ensures
        line_fields(spec_pointer_line(render_pointer(v, d))) == Some((v, d)),
{
    let content = render_pointer(v, d);
    assert(content.len() > 0);
    assert forall|k: int| 0 <= k < content.len() implies #[trigger] content[k] != '\n' by {
        if k < v.len() {
            assert(content[k] == v[k]);
        } else if k == v.len() {
            assert(content[k] == ' ');
        } else {
            assert(content[k] == d[k - v.len() - 1]);
        }
    }
    lemma_first_nl_is(content, content.len() as int);
    assert(spec_lines(content) == seq![content]);
    assert(seq![content][0] == content);
    lemma_line_fields_render(v, d);
}

/// After an update, the rendered ledger file holds exactly one line for
/// the updated name: the last line, carrying the new directory; no
/// earlier line's first field is that name.
pub proof fn lemma_upsert_one_line(es: Seq<EntryV>, v: Seq<char>, d: Seq<char>)
    requires
        wf_entries(es),
        is_token(v),
        is_token(d),
    ensures
        ({
            let up = crate::ledger::spec_upsert(es, v, d);
            let ls = spec_lines(render_entries(up));
            &&& ls.len() == up.len()
            &&& line_fields(ls[up.len() - 1]) == Some((v, d))
            &&& forall|i: int|
                0 <= i < up.len() - 1 ==> (line_fields(#[trigger] ls[i]) matches Some(p) && p.0
                    != v)
        }),
{
    let e = EntryV { version: v, dir: d };
    let removed = crate::ledger::spec_remove(es, v);
    let up = crate::ledger::spec_upsert(es, v, d);
    crate::ledger::lemma_remove_wf(es, v);
    crate::ledger::lemma_wf_push(removed, e);
    crate::ledger::lemma_remove_removes(es, v);
    crate::ledger::lemma_count_zero(removed, v);
    lemma_ledger_round_trip(up);
    let ls = spec_lines(render_entries(up));
    assert(up[up.len() - 1] == e);
    assert forall|i: int|
        0 <= i < up.len() - 1 implies (line_fields(#[trigger] ls[i]) matches Some(p) && p.0
        != v) by {
        assert(up[i] == removed[i]);
        assert(line_fields(ls[i]) == Some((up[i].version, up[i].dir)));
    }
}

/// A ledger file's content with the version's record updated: every
/// record the name already has is removed, then the new line is
/// appended, so the name stays unique in the file. The rewrite reads all
/// records and writes them all back; lines that carried no record are
/// dropped by it.
pub fn add_version_to_installed(
    content: &String,
    version: &String,
    binary_directory: String,
) -> (r: String)
    requires
        is_token(version@),
        is_token(binary_directory@),
    ensures
        r@ == render_entries(
            crate::ledger::spec_upsert(ledger_of(content@), version@, binary_directory@),
        ),
{
    let parsed = parse_installed(content.as_str());
    let ghost gv = version@;
    let ghost gd = binary_directory@;
    let mut entries = crate::ledger::removed(&parsed.0, version.as_str());
    entries.push(Entry { version: version.clone(), dir: binary_directory });
    proof {
        assert(entries_view(entries@) =~= crate::ledger::spec_remove(
            ledger_of(content@),
            gv,
        ).push(EntryV { version: gv, dir: gd }));
    }
    render_installed(&entries)
}

/// The directory recorded for a version, read straight off a ledger
/// file's content: the first record wins.
pub fn get_installed(content: &str, version: &String) -> (r: Option<String>)
    ensures
        r matches Some(d) ==> crate::ledger::spec_find(ledger_of(content@), version@) == Some(
            d@,
        ),
        r is None ==> crate::ledger::spec_find(ledger_of(content@), version@) is None,
{
    let parsed = parse_installed(content);
    crate::ledger::find_in(&parsed.0, version.as_str())
}

/// Unfolds the record list over a line list split into head and tail.
proof fn lemma_entries_lines_head(l: Seq<char>, ls: Seq<Seq<char>>)
    ensures
        entries_of_lines(seq![l] + ls) == (match line_fields(l) {
            Some(p) => seq![EntryV { version: p.0, dir: p.1 }] + entries_of_lines(ls),
            None => entries_of_lines(ls),
        }),
        malformed_of_lines(seq![l] + ls) == (if line_malformed(l) {
            1int
        } else {
            0int
        }) + malformed_of_lines(ls),
{
    let s = seq![l] + ls;
    assert(s[0] == l);
    assert(s.drop_first() =~= ls);
}

/// First index at or past `from` holding a non-separator, or the end.
fn scan_ws(s: &str, n: usize, from: usize) -> (r: usize)
    requires
        n == s@.len(),
        from <= n,
    ensures
        from <= r <= n,
        ws_prefix(s@.skip(from as int)) == r - from,
        r < n ==> !is_ws_char(s@[r as int]),
{
    let mut i = from;
    while i < n
        invariant
            from <= i <= n,
            n == s@.len(),
            forall|k: int| from <= k < i ==> is_ws_char(#[trigger] s@[k]),
        decreases n - i,
    {
        let c = s.get_char(i);
        if !crate::text::ws_char(c) {
            proof {
                assert forall|k: int| 0 <= k < i - from implies is_ws_char(
                    #[trigger] s@.skip(from as int)[k],
                ) by {
                    assert(s@.skip(from as int)[k] == s@[from + k]);
                }
                assert(s@.skip(from as int)[i - from] == s@[i as int]);
                lemma_ws_prefix_is(s@.skip(from as int), i - from);
            }
            return i;
        }
        i += 1;
    }
    proof {
        assert forall|k: int| 0 <= k < n - from implies is_ws_char(
            #[trigger] s@.skip(from as int)[k],
        ) by {
            assert(s@.skip(from as int)[k] == s@[from + k]);
        }
        lemma_ws_prefix_is(s@.skip(from as int), n - from);
    }
    n
}

/// First index at or past `from` holding a separator or a line break, or
/// the end.
fn scan_tok(s: &str, n: usize, from: usize) -> (r: usize)
    requires
        n == s@.len(),
        from <= n,
    ensures
        from <= r <= n,
        tok_prefix(s@.skip(from as int)) == r - from,
{
    let mut i = from;
    while i < n
        invariant
            from <= i <= n,
            n == s@.len(),
            forall|k: int| from <= k < i ==> !is_ws_char(#[trigger] s@[k]) && s@[k] != '\n',
        decreases n - i,
    {
        let c = s.get_char(i);
        if crate::text::ws_char(c) || c == '\n' {
            proof {
                assert forall|k: int| 0 <= k < i - from implies !is_ws_char(
                    #[trigger] s@.skip(from as int)[k],
                ) && s@.skip(from as int)[k] != '\n' by {
                    assert(s@.skip(from as int)[k] == s@[from + k]);
                }
                assert(s@.skip(from as int)[i - from] == s@[i as int]);
                lemma_tok_prefix_is(s@.skip(from as int), i - from);
            }
            return i;
        }
        i += 1;
    }
    proof {
        assert forall|k: int| 0 <= k < n - from implies !is_ws_char(
            #[trigger] s@.skip(from as int)[k],
        ) && s@.skip(from as int)[k] != '\n' by {
            assert(s@.skip(from as int)[k] == s@[from + k]);
        }
        lemma_tok_prefix_is(s@.skip(from as int), n - from);
    }
    n
}

/// First line break at or past `from`, or the end.
fn scan_nl(s: &str, n: usize, from: usize) -> (r: usize)
    requires
        n == s@.len(),
        from <= n,
    ensures
        from <= r <= n,
        first_nl(s@.skip(from as int)) == r - from,
        r < n ==> s@[r as int] == '\n',
{
    let mut i = from;
    while i < n
        invariant
            from <= i <= n,
            n == s@.len(),
            forall|k: int| from <= k < i ==> #[trigger] s@[k] != '\n',
        decreases n - i,
    {
        let c = s.get_char(i);
        if c == '\n' {
            proof {
                assert forall|k: int| 0 <= k < i - from implies #[trigger] s@.skip(from as int)[k]
                    != '\n' by {
                    assert(s@.skip(from as int)[k] == s@[from + k]);
                }
                assert(s@.skip(from as int)[i - from] == s@[i as int]);
                lemma_first_nl_is(s@.skip(from as int), i - from);
            }
            return i;
        }
        i += 1;
    }
    proof {
        assert forall|k: int| 0 <= k < n - from implies #[trigger] s@.skip(from as int)[k]
            != '\n' by {
            assert(s@.skip(from as int)[k] == s@[from + k]);
        }
        lemma_first_nl_is(s@.skip(from as int), n - from);
    }
    n
}

/// Whether a line holds nothing but separators.
pub fn line_is_blank(line: &str) -> (r: bool)
    ensures
        r == line_blank(line@),
{
    let n = line.unicode_len();
    let a0 = scan_ws(line, n, 0);
    proof {
        assert(line@.skip(0) =~= line@);
    }
    a0 >= n
}

/// The first two fields of a line, if it has two.
pub fn parse_line_fields(line: &str) -> (r: Option<(String, String)>)
    ensures
        r matches Some(p) ==> line_fields(line@) == Some((p.0@, p.1@)),
        r is None ==> line_fields(line@) is None,
{
    let ghost l = line@;
    let n = line.unicode_len();
    let a0 = scan_ws(line, n, 0);
    proof {
        assert(l.skip(0) =~= l);
    }
    if a0 >= n {
        return None;
    }
    let t1end = scan_tok(line, n, a0);
    let b0 = scan_ws(line, n, t1end);
    proof {
        let r1 = l.skip(a0 as int);
        let r2 = r1.skip(t1end - a0);
        assert(r2 =~= l.skip(t1end as int));
        assert(ws_prefix(r2) == b0 - t1end);
    }
    if b0 >= n {
        return None;
    }
    let t2end = scan_tok(line, n, b0);
    let tok1 = line.substring_char(a0, t1end).to_owned();
    let tok2 = line.substring_char(b0, t2end).to_owned();
    proof {
        let r1 = l.skip(a0 as int);
        let t1 = tok_prefix(r1) as int;
        let r2 = r1.skip(t1);
        let r3 = r2.skip(ws_prefix(r2) as int);
        assert(r3 =~= l.skip(b0 as int));
        assert(tok_prefix(r3) == t2end - b0);
        assert(r1.subrange(0, t1) =~= l.subrange(a0 as int, t1end as int));
        assert(r3.subrange(0, tok_prefix(r3) as int) =~= l.subrange(b0 as int, t2end as int));
    }
    Some((tok1, tok2))
}

/// Reads a whole ledger file: the records its lines carry, in order, and
/// how many lines were malformed. A malformed line is skipped; the lines
/// after it are still read.
pub fn parse_installed(content: &str) -> (r: (Vec<Entry>, usize))
    ensures
        entries_view(r.0@) == ledger_of(content@),
        r.1 == malformed_of_lines(spec_lines(content@)),
{
    let ghost s = content@;
    let n = content.unicode_len();
    let mut out: Vec<Entry> = Vec::new();
    let mut bad: usize = 0;
    let mut p: usize = 0;
    proof {
        assert(s.skip(0) =~= s);
        assert(entries_view(out@) =~= Seq::<EntryV>::empty());
    }
    while p < n
        invariant
            p <= n,
            n == s.len(),
            s == content@,
            bad <= p,
            ledger_of(s) == entries_view(out@) + entries_of_lines(spec_lines(s.skip(p as int))),
            malformed_of_lines(spec_lines(s)) == bad + malformed_of_lines(
                spec_lines(s.skip(p as int)),
            ),
        decreases n - p,
    {
        let j = scan_nl(content, n, p);
        let line = content.substring_char(p, j);
        let ghost lskip = s.skip(p as int);
        let ghost rest = if j < n {
            spec_lines(s.skip(j + 1))
        } else {
            Seq::<Seq<char>>::empty()
        };
        proof {
            assert(lskip.len() == n - p);
            assert(first_nl(lskip) == j - p);
            assert(line@ == s.subrange(p as int, j as int));
            if j < n {
                assert(line@ =~= lskip.subrange(0, j - p));
                assert(lskip.subrange(j - p + 1, lskip.len() as int) =~= s.skip(j + 1));
                assert(spec_lines(lskip) == seq![line@] + rest);
            } else {
                assert(line@ =~= lskip);
                assert(spec_lines(lskip) == seq![lskip]);
                assert(seq![lskip] =~= seq![line@] + rest);
            }
            lemma_entries_lines_head(line@, rest);
        }
        match parse_line_fields(line) {
            Some(pair) => {
                let ghost old_out = out@;
                let ghost gv = pair.0@;
                let ghost gd = pair.1@;
                out.push(Entry { version: pair.0, dir: pair.1 });
                proof {
                    let e = EntryV { version: gv, dir: gd };
                    assert(entries_view(out@) =~= entries_view(old_out) + seq![e]);
                    assert(entries_view(old_out) + (seq![e] + entries_of_lines(rest))
                        =~= (entries_view(old_out) + seq![e]) + entries_of_lines(rest));
                }
            },
            None => {
                if !line_is_blank(line) {
                    bad += 1;
                }
            },
        }
        if j < n {
            p = j + 1;
        } else {
            p = n;
            proof {
                assert(rest =~= spec_lines(s.skip(n as int))) by {
                    assert(s.skip(n as int) =~= Seq::<char>::empty());
                }
            }
        }
    }
    proof {
        assert(s.skip(n as int) =~= Seq::<char>::empty());
        assert(spec_lines(Seq::<char>::empty()) =~= Seq::<Seq<char>>::empty());
        assert(entries_of_lines(Seq::<Seq<char>>::empty()) =~= Seq::<EntryV>::empty());
        assert(malformed_of_lines(Seq::<Seq<char>>::empty()) == 0);
        assert(entries_view(out@) + Seq::<EntryV>::empty() =~= entries_view(out@));
    }
    (out, bad)
}

/// Writes a whole ledger file: one line per record, in order.
pub fn render_installed(entries: &Vec<Entry>) -> (r: String)
    ensures
        r@ == render_entries(entries_view(entries@)),
{
    let ghost ev = entries_view(entries@);
    let n = entries.len();
    let mut out = String::new();
    let mut i: usize = 0;
    proof {
        assert(ev.skip(0) =~= ev);
        reveal_strlit(" ");
        reveal_strlit("\n");
    }
    while i < n
        invariant
            0 <= i <= n,
            n == entries@.len(),
            ev == entries_view(entries@),
            ev.len() == n,
            render_entries(ev) == out@ + render_entries(ev.skip(i as int)),
        decreases n - i,
    {
        proof {
            assert(ev.skip(i as int)[0] == ev[i as int]);
            assert(ev[i as int] == entries@[i as int]@);
            assert(ev.skip(i as int).drop_first() =~= ev.skip(i as int + 1));
        }
        let ghost before = out@;
        out.append(entries[i].version.as_str());
        out.append(" ");
        out.append(entries[i].dir.as_str());
        out.append("\n");
        proof {
            reveal_strlit(" ");
            reveal_strlit("\n");
            assert(" "@ =~= seq![' ']);
            assert("\n"@ =~= seq!['\n']);
            assert(out@ =~= before + render_entry(ev[i as int]));
            assert(before + (render_entry(ev[i as int]) + render_entries(ev.skip(i as int + 1)))
                =~= (before + render_entry(ev[i as int])) + render_entries(ev.skip(i as int + 1)));
        }
        i += 1;
    }
    proof {
        assert(ev.skip(n as int) =~= Seq::<EntryV>::empty());
        assert(out@ + Seq::<char>::empty() =~= out@);
    }
    out
}

/// Writes the pointer record: the two fields, separated by one space.
pub fn render_pointer_record(version: &str, dir: &str) -> (r: String)
    ensures
        r@ == render_pointer(version@, dir@),
{
    let mut out = version.to_owned();
    out.append(" ");
    out.append(dir);
    proof {
        reveal_strlit(" ");
        assert(" "@ =~= seq![' ']);
        assert(out@ =~= version@ + seq![' '] + dir@);
    }
    out
}

/// What reading the pointer file yielded.
pub enum PointerParse {
    /// The file was missing, empty, or blank: nothing is active.
    Empty,
    /// The active version's name and its extracted directory.
    Record(String, String),
    /// The file carries something, but not two whole fields.
    Corrupt,
}

/// The line of a pointer file that counts: its first.
pub open spec fn spec_pointer_line(content: Seq<char>) -> Seq<char> {
    if spec_lines(content).len() == 0 {
        Seq::empty()
    } else {
        spec_lines(content)[0]
    }
}

/// Reads the pointer file. Only the first line counts; a blank file means
/// nothing is active, a first line without two whole fields is corruption.
pub fn parse_pointer(content: &str) -> (r: PointerParse)
    ensures
        ({
            let l = spec_pointer_line(content@);
            match r {
                PointerParse::Empty => line_blank(l),
                PointerParse::Record(v, d) => line_fields(l) == Some((v@, d@)),
                PointerParse::Corrupt => line_malformed(l),
            }
        }),
{
    let ghost s = content@;
    let n = content.unicode_len();
    let j = scan_nl(content, n, 0);
    let line = content.substring_char(0, j);
    proof {
        assert(s.skip(0) =~= s);
        assert(first_nl(s) == j);
        if n == 0 {
            assert(line@ =~= spec_pointer_line(s));
            assert(ws_prefix(line@) == 0);
        } else if j < n {
            assert(spec_lines(s) == seq![s.subrange(0, j as int)] + spec_lines(
                s.subrange(j + 1, n as int),
            ));
            assert((seq![s.subrange(0, j as int)] + spec_lines(s.subrange(j + 1, n as int)))[0]
                == s.subrange(0, j as int));
            assert(line@ == spec_pointer_line(s));
        } else {
            assert(spec_lines(s) == seq![s]);
            assert(seq![s][0] == s);
            assert(line@ =~= spec_pointer_line(s));
        }
    }
    if line_is_blank(line) {
        return PointerParse::Empty;
    }
    match parse_line_fields(line) {
        Some(pair) => PointerParse::Record(pair.0, pair.1),
        None => PointerParse::Corrupt,
    }
}

} // verus!
