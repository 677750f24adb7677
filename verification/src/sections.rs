//! A line-level model of the wallet's sectioned key-value file: header
//! lines in brackets, value lines under them.  The wallet file tooling
//! reorders, merges and rewrites such documents without ever defining
//! their schema; the exact text of every rewrite is specified here.

use vstd::prelude::*;
use crate::text::{clean_address, lemma_strings_snoc, lex_lt, str_eq, str_lt, trim_chars};

verus! {

/// One section: its bracketed header line and its value lines, trimmed.
pub struct Section {
    pub header: String,
    pub lines: Vec<String>,
}

impl View for Section {
    type V = (Seq<char>, Seq<Seq<char>>);

    open spec fn view(&self) -> (Seq<char>, Seq<Seq<char>>) {
        (self.header@, self.lines.deep_view())
    }
}

/// The model of a parsed document.
pub open spec fn doc_view(doc: Seq<Section>) -> Seq<(Seq<char>, Seq<Seq<char>>)> {
    doc.map_values(|s: Section| s@)
}

/// The position of the first line feed in `s`, or `s.len()` if none.
pub open spec fn first_nl(s: Seq<char>) -> nat
    decreases s.len(),
{
    if s.len() == 0 {
        0
    } else if s[0] == '\n' {
        0
    } else {
        1 + first_nl(s.subrange(1, s.len() as int))
    }
}

proof fn lemma_first_nl_at(s: Seq<char>, k: int)
    requires
        0 <= k <= s.len(),
        forall|j: int| 0 <= j < k ==> s[j] != '\n',
        k < s.len() ==> s[k] == '\n',
    ensures
        first_nl(s) == k,
    decreases k,
{
    if s.len() > 0 && k > 0 {
        lemma_first_nl_at(s.subrange(1, s.len() as int), k - 1);
    }
}

/// `s` split at line feeds, each line feed consumed.
pub open spec fn split_lines(s: Seq<char>) -> Seq<Seq<char>>
    decreases s.len(),
{
    let k = first_nl(s);
    if k >= s.len() {
        seq![s]
    } else {
        seq![s.take(k as int)] + split_lines(s.subrange(k as int + 1, s.len() as int))
    }
}

/// Split a document into its lines.
pub fn split_into_lines(s: &str) -> (r: Vec<String>)
    ensures
        r.deep_view() == split_lines(s@),
{
    let n = s.unicode_len();
    let mut r: Vec<String> = Vec::new();
    let mut start: usize = 0;
    let mut i: usize = 0;
    proof {
        assert(s@.subrange(0, n as int) =~= s@);
        assert(r.deep_view() =~= Seq::<Seq<char>>::empty());
        assert(r.deep_view() + split_lines(s@) =~= split_lines(s@));
    }
    while i < n
        invariant
            start <= i <= n,
            n == s@.len(),
            forall|j: int| start <= j < i ==> s@[j] != '\n',
            split_lines(s@) == r.deep_view() + split_lines(
                s@.subrange(start as int, n as int),
            ),
        decreases n - i,
    {
        if s.get_char(i) == '\n' {
            let ghost pre = r;
            let line = s.substring_char(start, i);
            r.push(line.to_owned());
            proof {
                lemma_strings_snoc(pre, r);
                let rest = s@.subrange(start as int, n as int);
                lemma_first_nl_at(rest, i - start);
                assert(rest.take(i - start) =~= s@.subrange(start as int, i as int));
                assert(rest.subrange(i - start + 1, rest.len() as int) =~= s@.subrange(
                    i + 1,
                    n as int,
                ));
                assert(r.deep_view() =~= pre.deep_view() + seq![line@]);
                assert(r.deep_view() + split_lines(s@.subrange(i + 1, n as int))
                    =~= pre.deep_view() + split_lines(rest));
            }
            start = i + 1;
        }
        i = i + 1;
    }
    let ghost pre = r;
    let line = s.substring_char(start, n);
    r.push(line.to_owned());
    proof {
        lemma_strings_snoc(pre, r);
        let rest = s@.subrange(start as int, n as int);
        lemma_first_nl_at(rest, n - start);
        assert(rest =~= line@);
        assert(split_lines(rest) =~= seq![line@]);
        assert(r.deep_view() =~= pre.deep_view() + seq![line@]);
    }
    r
}

/// A trimmed line that opens a section: bracketed on both ends.
pub open spec fn is_header(l: Seq<char>) -> bool {
    l.len() > 0 && l[0] == '[' && l[l.len() - 1] == ']'
}

fn is_header_exec(l: &str) -> (r: bool)
    ensures
        r == is_header(l@),
{
    let n = l.unicode_len();
    n > 0 && l.get_char(0) == '[' && l.get_char(n - 1) == ']'
}

/// The position of the section named `h`, or `doc.len()` if absent.
pub open spec fn find_sec(doc: Seq<(Seq<char>, Seq<Seq<char>>)>, h: Seq<char>) -> nat
    decreases doc.len(),
{
    if doc.len() == 0 {
        0
    } else if doc[0].0 == h {
        0
    } else {
        1 + find_sec(doc.subrange(1, doc.len() as int), h)
    }
}

proof fn lemma_find_sec_at(doc: Seq<(Seq<char>, Seq<Seq<char>>)>, h: Seq<char>, k: int)
    requires
        0 <= k <= doc.len(),
        forall|j: int| 0 <= j < k ==> doc[j].0 != h,
        k < doc.len() ==> doc[k].0 == h,
    ensures
        find_sec(doc, h) == k,
    decreases k,
{
    if doc.len() > 0 && k > 0 {
        lemma_find_sec_at(doc.subrange(1, doc.len() as int), h, k - 1);
    }
}

/// Start (or restart, emptied) the section named `h`.
pub open spec fn open_sec(
    doc: Seq<(Seq<char>, Seq<Seq<char>>)>,
    h: Seq<char>,
) -> Seq<(Seq<char>, Seq<Seq<char>>)> {
    let k = find_sec(doc, h);
    if k < doc.len() {
        doc.update(k as int, (h, Seq::<Seq<char>>::empty()))
    } else {
        doc.push((h, Seq::<Seq<char>>::empty()))
    }
}

/// Append a value line to the section named `h`, if it exists.
pub open spec fn push_line(
    doc: Seq<(Seq<char>, Seq<Seq<char>>)>,
    h: Seq<char>,
    l: Seq<char>,
) -> Seq<(Seq<char>, Seq<Seq<char>>)> {
    let k = find_sec(doc, h);
    if k < doc.len() {
        doc.update(k as int, (h, doc[k as int].1.push(l)))
    } else {
        doc
    }
}

/// One raw line folded into the document under construction: blank lines
/// vanish, a header line opens (or empties) its section, and any other
/// line joins the section opened last, if any.
pub open spec fn fold_line(
    doc: Seq<(Seq<char>, Seq<Seq<char>>)>,
    cur: Seq<char>,
    raw: Seq<char>,
) -> (Seq<(Seq<char>, Seq<Seq<char>>)>, Seq<char>) {
    let t = trim_chars(raw);
    if t.len() == 0 {
        (doc, cur)
    } else if is_header(t) {
        (open_sec(doc, t), t)
    } else if cur.len() > 0 {
        (push_line(doc, cur, t), cur)
    } else {
        (doc, cur)
    }
}

/// The lines from `i` on folded into the accumulated document.
pub open spec fn fold_lines(
    lines: Seq<Seq<char>>,
    i: int,
    doc: Seq<(Seq<char>, Seq<Seq<char>>)>,
    cur: Seq<char>,
) -> (Seq<(Seq<char>, Seq<Seq<char>>)>, Seq<char>)
    decreases lines.len() - i,
{
    if i < 0 || i >= lines.len() {
        (doc, cur)
    } else {
        let stepped = fold_line(doc, cur, lines[i]);
        fold_lines(lines, i + 1, stepped.0, stepped.1)
    }
}

/// The document a raw text parses to.
pub open spec fn parse_doc(s: Seq<char>) -> Seq<(Seq<char>, Seq<Seq<char>>)> {
    fold_lines(
        split_lines(s),
        0,
        Seq::<(Seq<char>, Seq<Seq<char>>)>::empty(),
        Seq::<char>::empty(),
    ).0
}

/// The position of the section headed `header`, if present.
pub fn find_section(doc: &Vec<Section>, header: &str) -> (r: Option<usize>)
    ensures
        match r {
            Some(k) => {
                &&& k < doc@.len()
                &&& find_sec(doc_view(doc@), header@) == k
                &&& doc_view(doc@)[k as int].0 == header@
            },
            None => find_sec(doc_view(doc@), header@) == doc@.len(),
        },
{
    let mut k: usize = 0;
    while k < doc.len()
        invariant
            k <= doc@.len(),
            forall|j: int| 0 <= j < k ==> doc_view(doc@)[j].0 != header@,
        decreases doc@.len() - k,
    {
        if str_eq(doc[k].header.as_str(), header) {
            proof {
                lemma_find_sec_at(doc_view(doc@), header@, k as int);
            }
            return Some(k);
        }
        k = k + 1;
    }
    proof {
        lemma_find_sec_at(doc_view(doc@), header@, doc@.len() as int);
    }
    None
}

/// Parse a raw document into its sections, the way the wallet file
/// scraper reads one: lines trimmed, blank lines dropped, a repeated
/// header emptying its earlier section, and anything before the first
/// header ignored.
pub fn parse_sections(content: &str) -> (r: Vec<Section>)
    ensures
        doc_view(r@) == parse_doc(content@),
{
    let lines = split_into_lines(content);
    let mut doc: Vec<Section> = Vec::new();
    let mut cur_name: Option<String> = None;
    let mut i: usize = 0;
    proof {
        assert(doc_view(doc@) =~= Seq::<(Seq<char>, Seq<Seq<char>>)>::empty());
    }
    while i < lines.len()
        invariant
            i <= lines@.len(),
            lines.deep_view().len() == lines@.len(),
            parse_doc(content@) == fold_lines(
                lines.deep_view(),
                i as int,
                doc_view(doc@),
                match cur_name {
                    Some(ref c) => c@,
                    None => Seq::<char>::empty(),
                },
            ).0,
            cur_name matches Some(c) ==> c@.len() > 0,
        decreases lines@.len() - i,
    {
        let ghost cur_v = match cur_name {
            Some(ref c) => c@,
            None => Seq::<char>::empty(),
        };
        let ghost doc_v = doc_view(doc@);
        let ghost doc_v0 = doc@;
        proof {
            assert(lines.deep_view()[i as int] == lines@[i as int]@);
        }
        let t = clean_address(lines[i].as_str());
        let ghost tv = t@;
        if t.as_str().is_empty() {
            // blank line: nothing changes
        } else if is_header_exec(t.as_str()) {
            match find_section(&doc, t.as_str()) {
                Some(k) => {
                    doc[k] = Section { header: t, lines: Vec::new() };
                    proof {
                        let ghost target = doc_v.update(
                            k as int,
                            (tv, Seq::<Seq<char>>::empty()),
                        );
                        assert(doc_view(doc@)[k as int].1 =~= Seq::<Seq<char>>::empty());
                        assert forall|j: int| 0 <= j < doc_view(doc@).len() implies
                            doc_view(doc@)[j] == target[j] by {
                            if j != k {
                                assert(doc@[j] == doc_v0[j]);
                            }
                        }
                        assert(doc_view(doc@) =~= target);
                        assert(open_sec(doc_v, tv) == target);
                    }
                },
                None => {
                    doc.push(Section { header: t, lines: Vec::new() });
                    proof {
                        let ghost target = doc_v.push((tv, Seq::<Seq<char>>::empty()));
                        assert(doc_view(doc@)[doc@.len() - 1].1 =~= Seq::<
                            Seq<char>,
                        >::empty());
                        assert forall|j: int| 0 <= j < doc_view(doc@).len() implies
                            doc_view(doc@)[j] == target[j] by {
                            if j < doc@.len() - 1 {
                                assert(doc@[j] == doc_v0[j]);
                            }
                        }
                        assert(doc_view(doc@) =~= target);
                        assert(open_sec(doc_v, tv) == target);
                    }
                },
            }
            cur_name = Some(clean_address(lines[i].as_str()));
        } else if cur_name.is_some() {
            let h = match &cur_name {
                Some(c) => c.clone(),
                None => String::new(),
            };
            match find_section(&doc, h.as_str()) {
                Some(k) => {
                    let mut grown = crate::text::copy_strings(&doc[k].lines);
                    let ghost pre_lines = grown;
                    grown.push(t);
                    doc[k] = Section { header: h, lines: grown };
                    proof {
                        lemma_strings_snoc(pre_lines, doc@[k as int].lines);
                        let ghost target = doc_v.update(
                            k as int,
                            (cur_v, doc_v[k as int].1.push(tv)),
                        );
                        assert(doc_view(doc@)[k as int].1 =~= doc_v[k as int].1.push(tv));
                        assert forall|j: int| 0 <= j < doc_view(doc@).len() implies
                            doc_view(doc@)[j] == target[j] by {
                            if j != k {
                                assert(doc@[j] == doc_v0[j]);
                            }
                        }
                        assert(doc_view(doc@) =~= target);
                        assert(push_line(doc_v, cur_v, tv) == target);
                    }
                },
                None => {
                    // the opened section always exists; nothing to do
                },
            }
        }
        i = i + 1;
    }
    doc
}


/// Insert one section into a document sorted descending by header.
pub open spec fn insert_desc(
    doc: Seq<(Seq<char>, Seq<Seq<char>>)>,
    x: (Seq<char>, Seq<Seq<char>>),
) -> Seq<(Seq<char>, Seq<Seq<char>>)>
    decreases doc.len(),
{
    if doc.len() == 0 {
        seq![x]
    } else if lex_lt(doc[0].0, x.0) {
        seq![x] + doc
    } else {
        seq![doc[0]] + insert_desc(doc.subrange(1, doc.len() as int), x)
    }
}

/// The document sorted descending by header, the order an ordered map's
/// reversed walk hands sections out in.
pub open spec fn sort_desc(
    doc: Seq<(Seq<char>, Seq<Seq<char>>)>,
) -> Seq<(Seq<char>, Seq<Seq<char>>)>
    decreases doc.len(),
{
    if doc.len() == 0 {
        doc
    } else {
        insert_desc(sort_desc(doc.drop_last()), doc.last())
    }
}

proof fn lemma_insert_desc_at(
    doc: Seq<(Seq<char>, Seq<Seq<char>>)>,
    x: (Seq<char>, Seq<Seq<char>>),
    j: int,
)
    requires
        0 <= j <= doc.len(),
        forall|i: int| 0 <= i < j ==> !lex_lt(doc[i].0, x.0),
        j < doc.len() ==> lex_lt(doc[j].0, x.0),
    ensures
        insert_desc(doc, x) == doc.insert(j, x),
    decreases j,
{
    if j == 0 {
        if doc.len() == 0 {
            assert(seq![x] =~= doc.insert(0, x));
        } else {
            assert(seq![x] + doc =~= doc.insert(0, x));
        }
    } else {
        let tail = doc.subrange(1, doc.len() as int);
        lemma_insert_desc_at(tail, x, j - 1);
        assert(seq![doc[0]] + tail.insert(j - 1, x) =~= doc.insert(j, x));
    }
}

/// Sort a document descending by section header.
pub fn sort_sections_desc(doc: Vec<Section>) -> (r: Vec<Section>)
    ensures
        doc_view(r@) == sort_desc(doc_view(doc@)),
{
    let ghost orig = doc_view(doc@);
    let mut rest = doc;
    let mut out: Vec<Section> = Vec::new();
    let ghost mut p: int = 0;
    proof {
        assert(doc_view(out@) =~= Seq::<(Seq<char>, Seq<Seq<char>>)>::empty());
        assert(orig.take(0) =~= Seq::<(Seq<char>, Seq<Seq<char>>)>::empty());
        assert(doc_view(rest@) =~= orig.subrange(0, orig.len() as int));
    }
    while rest.len() > 0
        invariant
            0 <= p <= orig.len(),
            doc_view(rest@) == orig.subrange(p, orig.len() as int),
            doc_view(out@) == sort_desc(orig.take(p)),
        decreases rest@.len(),
    {
        let ghost rest_v = doc_view(rest@);
        let ghost out_v = doc_view(out@);
        let ghost rest_raw = rest@;
        let sec = rest.remove(0);
        proof {
            assert(doc_view(rest@) =~= rest_v.subrange(1, rest_v.len() as int));
            assert(doc_view(rest@) =~= orig.subrange(p + 1, orig.len() as int));
            assert(sec == rest_raw[0]);
            assert(rest_v[0] == rest_raw[0]@);
            assert(rest_v[0] == orig.subrange(p, orig.len() as int)[0]);
            assert(sec@ == orig[p]);
        }
        let mut j: usize = 0;
        while j < out.len() && !str_lt(out[j].header.as_str(), sec.header.as_str())
            invariant
                j <= out@.len(),
                forall|i: int| 0 <= i < j ==> !lex_lt(doc_view(out@)[i].0, sec@.0),
                doc_view(out@) == out_v,
            decreases out@.len() - j,
        {
            j = j + 1;
        }
        let ghost jj = j as int;
        out.insert(j, sec);
        proof {
            lemma_insert_desc_at(out_v, orig[p], jj);
            assert(doc_view(out@) =~= out_v.insert(jj, orig[p]));
            assert(orig.take(p + 1).drop_last() =~= orig.take(p));
            assert(orig.take(p + 1).last() == orig[p]);
            p = p + 1;
        }
    }
    proof {
        assert(orig.take(orig.len() as int) =~= orig);
        assert(doc_view(rest@).len() == 0);
        assert(p == orig.len());
    }
    out
}

/// A section's value lines rendered last first, each closed by a line
/// feed.
pub open spec fn render_lines_rev(ls: Seq<Seq<char>>) -> Seq<char>
    decreases ls.len(),
{
    if ls.len() == 0 {
        Seq::<char>::empty()
    } else {
        ls.last() + seq!['\n'] + render_lines_rev(ls.drop_last())
    }
}

/// One section rendered: a blank line, the header, then the value lines
/// in reverse.
pub open spec fn render_sec_rev(s: (Seq<char>, Seq<Seq<char>>)) -> Seq<char> {
    seq!['\n'] + s.0 + seq!['\n'] + render_lines_rev(s.1)
}

/// The whole document rendered section by section.
pub open spec fn render_rev(doc: Seq<(Seq<char>, Seq<Seq<char>>)>) -> Seq<char>
    decreases doc.len(),
{
    if doc.len() == 0 {
        Seq::<char>::empty()
    } else {
        render_rev(doc.drop_last()) + render_sec_rev(doc.last())
    }
}

proof fn lemma_render_lines_peel(ls: Seq<Seq<char>>)
    requires
        ls.len() > 0,
    ensures
        render_lines_rev(ls) == render_lines_rev(ls.subrange(1, ls.len() as int)) + ls[0]
            + seq!['\n'],
    decreases ls.len(),
{
    if ls.len() == 1 {
        assert(ls.drop_last() =~= Seq::<Seq<char>>::empty());
        assert(ls.subrange(1, 1) =~= Seq::<Seq<char>>::empty());
        assert(ls.last() + seq!['\n'] + render_lines_rev(ls.drop_last()) =~= render_lines_rev(
            ls.subrange(1, 1),
        ) + ls[0] + seq!['\n']);
    } else {
        let dl = ls.drop_last();
        lemma_render_lines_peel(dl);
        assert(dl.subrange(1, dl.len() as int) =~= ls.subrange(1, ls.len() as int).drop_last());
        assert(ls.subrange(1, ls.len() as int).last() == ls.last());
        assert(ls.last() + seq!['\n'] + (render_lines_rev(dl.subrange(1, dl.len() as int))
            + ls[0] + seq!['\n']) =~= (ls.last() + seq!['\n'] + render_lines_rev(
            dl.subrange(1, dl.len() as int),
        )) + ls[0] + seq!['\n']);
    }
}

fn line_feed() -> (r: &'static str)
    ensures
        r@ =~= seq!['\n'],
{
    let r = "\n";
    proof {
        reveal_strlit("\n");
        assert(r@ =~= seq!['\n']);
    }
    r
}

/// Render a document with each section's lines reversed, the way the
/// reordered wallet file is written back.
pub fn render_reversed(doc: &Vec<Section>) -> (r: String)
    ensures
        r@ == render_rev(doc_view(doc@)),
{
    let nl = line_feed();
    let dv = Ghost(doc_view(doc@));
    let mut out = String::new();
    let mut i: usize = 0;
    proof {
        assert(dv@.take(0) =~= Seq::<(Seq<char>, Seq<Seq<char>>)>::empty());
    }
    while i < doc.len()
        invariant
            i <= doc@.len(),
            dv@ == doc_view(doc@),
            nl@ == seq!['\n'],
            out@ == render_rev(dv@.take(i as int)),
        decreases doc@.len() - i,
    {
        out.append(nl);
        out.append(doc[i].header.as_str());
        out.append(nl);
        let ghost ls = dv@[i as int].1;
        let mut k: usize = doc[i].lines.len();
        proof {
            assert(ls.subrange(k as int, ls.len() as int) =~= Seq::<Seq<char>>::empty());
        }
        while k > 0
            invariant
                k <= doc@.len() == dv@.len() || true,
                i < doc@.len(),
                dv@ == doc_view(doc@),
                nl@ == seq!['\n'],
                ls == dv@[i as int].1,
                k <= ls.len(),
                ls.len() == doc@[i as int].lines@.len(),
                out@ == render_rev(dv@.take(i as int)) + seq!['\n'] + dv@[i as int].0
                    + seq!['\n'] + render_lines_rev(ls.subrange(k as int, ls.len() as int)),
            decreases k,
        {
            k = k - 1;
            out.append(doc[i].lines[k].as_str());
            out.append(nl);
            proof {
                let tail = ls.subrange(k as int, ls.len() as int);
                lemma_render_lines_peel(tail);
                assert(tail.subrange(1, tail.len() as int) =~= ls.subrange(
                    k as int + 1,
                    ls.len() as int,
                ));
                assert(tail[0] == doc@[i as int].lines@[k as int]@);
            }
        }
        proof {
            assert(ls.subrange(0, ls.len() as int) =~= ls);
            assert(dv@.take(i as int + 1).drop_last() =~= dv@.take(i as int));
            assert(dv@.take(i as int + 1).last() == dv@[i as int]);
        }
        i = i + 1;
    }
    proof {
        assert(dv@.take(doc@.len() as int) =~= dv@);
    }
    out
}

/// What reordering a raw wallet document yields: its sections, headers
/// sorted descending, each section's lines reversed, every line trimmed
/// and re-terminated.
pub open spec fn spec_reverse_toml(s: Seq<char>) -> Seq<char> {
    render_rev(sort_desc(parse_doc(s)))
}

/// Rewrite a sectioned document with its sections in descending header
/// order and each section's value lines reversed.
pub fn reverse_toml_order(toml_str: &str) -> (r: String)
    ensures
        r@ == spec_reverse_toml(toml_str@),
{
    let doc = parse_sections(toml_str);
    let sorted = sort_sections_desc(doc);
    render_reversed(&sorted)
}


/// Replace the lines of the section named `h` (or add that section at
/// the end).
pub open spec fn set_sec(
    doc: Seq<(Seq<char>, Seq<Seq<char>>)>,
    h: Seq<char>,
    ls: Seq<Seq<char>>,
) -> Seq<(Seq<char>, Seq<Seq<char>>)> {
    let k = find_sec(doc, h);
    if k < doc.len() {
        doc.update(k as int, (h, ls))
    } else {
        doc.push((h, ls))
    }
}

/// `dst` with its payment-address section replaced by the one in `src`,
/// when `src` has one; untouched otherwise.
pub open spec fn merge_docs(
    dst: Seq<(Seq<char>, Seq<Seq<char>>)>,
    src: Seq<(Seq<char>, Seq<Seq<char>>)>,
) -> Seq<(Seq<char>, Seq<Seq<char>>)> {
    let k = find_sec(src, "[payment_addrs]"@);
    if k < src.len() {
        set_sec(dst, "[payment_addrs]"@, src[k as int].1)
    } else {
        dst
    }
}

/// Carry the payment-address section of `src` into `dst`, replacing any
/// it already has; without one in `src`, `dst` stays as it is.
pub fn merge_payment_addrs(dst: &mut Vec<Section>, src: &Vec<Section>)
    ensures
        doc_view(final(dst)@) == merge_docs(doc_view(old(dst)@), doc_view(src@)),
{
    let ghost dst_v = doc_view(dst@);
    let ghost dst_raw = dst@;
    match find_section(src, "[payment_addrs]") {
        Some(ks) => {
            let lines = crate::text::copy_strings(&src[ks].lines);
            let header = src[ks].header.clone();
            let ghost lines_v = src@[ks as int].lines.deep_view();
            match find_section(dst, "[payment_addrs]") {
                Some(kd) => {
                    dst[kd] = Section { header, lines };
                    proof {
                        let ghost target = dst_v.update(
                            kd as int,
                            ("[payment_addrs]"@, lines_v),
                        );
                        assert(doc_view(dst@)[kd as int].1 =~= lines_v);
                        assert forall|j: int| 0 <= j < doc_view(dst@).len() implies
                            doc_view(dst@)[j] == target[j] by {
                            if j != kd {
                                assert(dst@[j] == dst_raw[j]);
                            }
                        }
                        assert(doc_view(dst@) =~= target);
                    }
                },
                None => {
                    dst.push(Section { header, lines });
                    proof {
                        let ghost target = dst_v.push(("[payment_addrs]"@, lines_v));
                        assert(doc_view(dst@)[dst@.len() - 1].1 =~= lines_v);
                        assert forall|j: int| 0 <= j < doc_view(dst@).len() implies
                            doc_view(dst@)[j] == target[j] by {
                            if j < dst@.len() - 1 {
                                assert(dst@[j] == dst_raw[j]);
                            }
                        }
                        assert(doc_view(dst@) =~= target);
                    }
                },
            }
        },
        None => {
        },
    }
}

/// The sections of `doc` named in `order`, in `order`'s order; sections
/// named nowhere in `order` are dropped.
pub open spec fn select_ordered(
    doc: Seq<(Seq<char>, Seq<Seq<char>>)>,
    order: Seq<Seq<char>>,
) -> Seq<(Seq<char>, Seq<Seq<char>>)>
    decreases order.len(),
{
    if order.len() == 0 {
        Seq::<(Seq<char>, Seq<Seq<char>>)>::empty()
    } else {
        let rest = select_ordered(doc, order.subrange(1, order.len() as int));
        let k = find_sec(doc, order[0]);
        if k < doc.len() {
            seq![doc[k as int]] + rest
        } else {
            rest
        }
    }
}

/// Keep only the sections named in `order`, arranged in that order.
pub fn order_sections(doc: &Vec<Section>, order: &Vec<String>) -> (r: Vec<Section>)
    ensures
        doc_view(r@) == select_ordered(doc_view(doc@), order.deep_view()),
{
    let ghost doc_v = doc_view(doc@);
    let ghost ord = order.deep_view();
    let mut out: Vec<Section> = Vec::new();
    let mut m: usize = 0;
    proof {
        assert(ord.subrange(0, ord.len() as int) =~= ord);
        assert(doc_view(out@) =~= Seq::<(Seq<char>, Seq<Seq<char>>)>::empty());
        assert(doc_view(out@) + select_ordered(doc_v, ord) =~= select_ordered(doc_v, ord));
    }
    while m < order.len()
        invariant
            m <= order@.len(),
            ord == order.deep_view(),
            ord.len() == order@.len(),
            doc_v == doc_view(doc@),
            select_ordered(doc_v, ord) == doc_view(out@) + select_ordered(
                doc_v,
                ord.subrange(m as int, ord.len() as int),
            ),
        decreases order@.len() - m,
    {
        let ghost out_v = doc_view(out@);
        let ghost suffix = ord.subrange(m as int, ord.len() as int);
        proof {
            assert(suffix[0] == ord[m as int]);
            assert(suffix.subrange(1, suffix.len() as int) =~= ord.subrange(
                m as int + 1,
                ord.len() as int,
            ));
            assert(order.deep_view()[m as int] == order@[m as int]@);
        }
        match find_section(doc, order[m].as_str()) {
            Some(k) => {
                let ghost out_raw = out@;
                out.push(Section {
                    header: doc[k].header.clone(),
                    lines: crate::text::copy_strings(&doc[k].lines),
                });
                proof {
                    assert(doc_view(out@)[out@.len() - 1].1 =~= doc_v[k as int].1);
                    assert(doc_view(out@)[out@.len() - 1].0 == doc_v[k as int].0);
                    assert forall|j: int| 0 <= j < doc_view(out@).len() implies
                        doc_view(out@)[j] == out_v.push(doc_v[k as int])[j] by {
                        if j < out_raw.len() {
                            assert(out@[j] == out_raw[j]);
                        }
                    }
                    assert(doc_view(out@) =~= out_v.push(doc_v[k as int]));
                    assert(out_v.push(doc_v[k as int]) =~= out_v + seq![doc_v[k as int]]);
                    assert(doc_view(out@) + select_ordered(
                        doc_v,
                        ord.subrange(m as int + 1, ord.len() as int),
                    ) =~= out_v + (seq![doc_v[k as int]] + select_ordered(
                        doc_v,
                        ord.subrange(m as int + 1, ord.len() as int),
                    )));
                }
            },
            None => {
            },
        }
        m = m + 1;
    }
    proof {
        assert(ord.subrange(order@.len() as int, ord.len() as int) =~= Seq::<
            Seq<char>,
        >::empty());
        assert(doc_view(out@) + Seq::<(Seq<char>, Seq<Seq<char>>)>::empty() =~= doc_view(
            out@,
        ));
    }
    out
}

/// The fixed layout of a wallet file: which sections are kept when one
/// is rewritten, and in what order.
pub open spec fn wallet_order() -> Seq<Seq<char>> {
    seq![
        "[view_keys]"@,
        "[spend_keys]"@,
        "[payment_addrs]"@,
        "[secret_keys]"@,
        "[public_keys]"@,
        "[derivation_paths]"@,
        "[addresses]"@,
        "[pkhs]"@,
        "[address_vp_types]"@,
    ]
}

/// The wallet file's section layout, as a list of headers.
pub fn wallet_section_order() -> (r: Vec<String>)
    ensures
        r.deep_view() == wallet_order(),
{
    let mut r: Vec<String> = Vec::new();
    r.push("[view_keys]".to_owned());
    r.push("[spend_keys]".to_owned());
    r.push("[payment_addrs]".to_owned());
    r.push("[secret_keys]".to_owned());
    r.push("[public_keys]".to_owned());
    r.push("[derivation_paths]".to_owned());
    r.push("[addresses]".to_owned());
    r.push("[pkhs]".to_owned());
    r.push("[address_vp_types]".to_owned());
    proof {
        assert forall|j: int| 0 <= j < r.deep_view().len() implies r.deep_view()[j]
            == wallet_order()[j] by {
            assert(r.deep_view()[j] == r@[j]@);
        }
        assert(r.deep_view() =~= wallet_order());
    }
    r
}

/// A section's value lines rendered in order, each closed by a line
/// feed.
pub open spec fn render_lines_fwd(ls: Seq<Seq<char>>) -> Seq<char>
    decreases ls.len(),
{
    if ls.len() == 0 {
        Seq::<char>::empty()
    } else {
        render_lines_fwd(ls.drop_last()) + ls.last() + seq!['\n']
    }
}

/// One section rendered in file order: the header line, then its value
/// lines.
pub open spec fn render_sec_fwd(s: (Seq<char>, Seq<Seq<char>>)) -> Seq<char> {
    s.0 + seq!['\n'] + render_lines_fwd(s.1)
}

/// A document rendered in file order.
pub open spec fn render_fwd(doc: Seq<(Seq<char>, Seq<Seq<char>>)>) -> Seq<char>
    decreases doc.len(),
{
    if doc.len() == 0 {
        Seq::<char>::empty()
    } else {
        render_fwd(doc.drop_last()) + render_sec_fwd(doc.last())
    }
}

/// Write a document back out, headers and lines in order.
pub fn render_sections(doc: &Vec<Section>) -> (r: String)
    ensures
        r@ == render_fwd(doc_view(doc@)),
{
    let nl = line_feed();
    let dv = Ghost(doc_view(doc@));
    let mut out = String::new();
    let mut i: usize = 0;
    proof {
        assert(dv@.take(0) =~= Seq::<(Seq<char>, Seq<Seq<char>>)>::empty());
    }
    while i < doc.len()
        invariant
            i <= doc@.len(),
            dv@ == doc_view(doc@),
            nl@ == seq!['\n'],
            out@ == render_fwd(dv@.take(i as int)),
        decreases doc@.len() - i,
    {
        out.append(doc[i].header.as_str());
        out.append(nl);
        let ghost ls = dv@[i as int].1;
        let mut k: usize = 0;
        proof {
            assert(ls.take(0) =~= Seq::<Seq<char>>::empty());
        }
        while k < doc[i].lines.len()
            invariant
                i < doc@.len(),
                dv@ == doc_view(doc@),
                nl@ == seq!['\n'],
                ls == dv@[i as int].1,
                k <= ls.len(),
                ls.len() == doc@[i as int].lines@.len(),
                out@ == render_fwd(dv@.take(i as int)) + dv@[i as int].0 + seq!['\n']
                    + render_lines_fwd(ls.take(k as int)),
            decreases ls.len() - k,
        {
            out.append(doc[i].lines[k].as_str());
            out.append(nl);
            proof {
                assert(ls.take(k as int + 1).drop_last() =~= ls.take(k as int));
                assert(ls.take(k as int + 1).last() == doc@[i as int].lines@[k as int]@);
            }
            k = k + 1;
        }
        proof {
            assert(ls.take(ls.len() as int) =~= ls);
            assert(dv@.take(i as int + 1).drop_last() =~= dv@.take(i as int));
            assert(dv@.take(i as int + 1).last() == dv@[i as int]);
        }
        i = i + 1;
    }
    proof {
        assert(dv@.take(doc@.len() as int) =~= dv@);
    }
    out
}

/// The whole wallet-file merge: the payment-address section of `src`
/// carried into `dst`, the known sections kept in their fixed order, and
/// the result written back out.
pub fn merge_wallet_texts(dst: &str, src: &str) -> (r: String)
    ensures
        r@ == render_fwd(
            select_ordered(
                merge_docs(parse_doc(dst@), parse_doc(src@)),
                wallet_order(),
            ),
        ),
{
    let mut dst_doc = parse_sections(dst);
    let src_doc = parse_sections(src);
    merge_payment_addrs(&mut dst_doc, &src_doc);
    let ordered = order_sections(&dst_doc, &wallet_section_order());
    render_sections(&ordered)
}

} // verus!
