//! Extraction of a document tree from heading markup: the first top-level
//! heading becomes the title, the text before the first second-level
//! heading becomes the content, and deeper headings become nested
//! sections, each with its own title, content and subsections.

use vstd::prelude::*;

use crate::codec::encode_yaml_raw;
use crate::codec::yaml_text_of;
use crate::frontmatter::find_marker;
use crate::frontmatter::marker_idx;
use crate::strings::join_lines;
use crate::strings::join_nl;
use crate::strings::lines_of;
use crate::strings::split_lines;
use crate::strings::starts_with;
use crate::strings::starts_with_of;
use crate::strings::trim;
use crate::strings::trim_of;
use crate::tree::Tree;
use crate::tree::TreeV;

verus! {

broadcast use vstd::std_specs::vec::axiom_vec_index_decreases, vstd::seq::axiom_seq_index_decreases;

/// One section of a document: a title, its text, and its subsections.
pub struct Section {
    pub title: String,
    pub content: String,
    pub sections: Vec<Section>,
}

/// Model of a section.
pub struct SectionV {
    pub title: Seq<char>,
    pub content: Seq<char>,
    pub sections: Seq<SectionV>,
}

/// Model of a section list.
pub open spec fn sections_view(ss: Seq<Section>) -> Seq<SectionV>
    decreases ss,
{
    Seq::new(
        ss.len(),
        |i: int|
            if 0 <= i < ss.len() {
                ss[i]@
            } else {
                SectionV { title: Seq::empty(), content: Seq::empty(), sections: Seq::empty() }
            },
    )
}

impl View for Section {
    type V = SectionV;

    open spec fn view(&self) -> SectionV
        decreases self,
    {
        SectionV {
            title: self.title@,
            content: self.content@,
            sections: sections_view(self.sections@),
        }
    }
}

/// The heading level of a (trimmed) line: the number of leading `#`
/// characters before a space, up to five; zero for a plain line.
pub open spec fn heading_level_of(line: Seq<char>) -> int {
    if starts_with_of(line, "##### "@) {
        5
    } else if starts_with_of(line, "#### "@) {
        4
    } else if starts_with_of(line, "### "@) {
        3
    } else if starts_with_of(line, "## "@) {
        2
    } else if starts_with_of(line, "# "@) {
        1
    } else {
        0
    }
}

/// The accumulated sections, closed off: a pending section receives the
/// accumulated text (trimmed) as its content and is appended.
pub open spec fn close_section(
    acc_secs: Seq<SectionV>,
    cur: Option<(Seq<char>, Seq<SectionV>)>,
    acc: Seq<char>,
) -> Seq<SectionV> {
    match cur {
        Some(c) => acc_secs.push(SectionV { title: c.0, content: trim_of(acc), sections: c.1 }),
        None => acc_secs,
    }
}

/// The accumulated text with one more line.
pub open spec fn push_line(acc: Seq<char>, line: Seq<char>) -> Seq<char> {
    if acc.len() == 0 {
        line
    } else {
        acc + seq!['\n'] + line
    }
}

/// Walks the lines from `idx`, collecting the sections of level
/// `target + 1`: a heading of level at most `target` ends the walk (the
/// index is not consumed); a heading of level `target + 1` opens a new
/// section; a deeper heading opens the subsections of the pending section
/// (which are collected by a nested walk of the same lines); a plain line
/// accumulates as text. The result is the collected sections and the index
/// the walk stopped at.
pub open spec fn extract_spec(
    lines: Seq<Seq<char>>,
    idx: int,
    target: int,
    acc_secs: Seq<SectionV>,
    cur: Option<(Seq<char>, Seq<SectionV>)>,
    acc: Seq<char>,
) -> (Seq<SectionV>, int)
    decreases lines.len() - idx, 5 - target,
{
    if idx < 0 || idx >= lines.len() {
        (close_section(acc_secs, cur, acc), idx)
    } else {
        let line = trim_of(lines[idx]);
        let level = heading_level_of(line);
        if level > 0 && level <= target {
            (close_section(acc_secs, cur, acc), idx)
        } else if level == target + 1 {
            extract_spec(
                lines,
                idx + 1,
                target,
                close_section(acc_secs, cur, acc),
                Some((trim_of(line.skip(level)), Seq::empty())),
                Seq::empty(),
            )
        } else if level > target + 1 {
            let opened = match cur {
                Some(c) => (c, acc),
                None => ((Seq::<char>::empty(), Seq::<SectionV>::empty()), Seq::<char>::empty()),
            };
            let inner = extract_spec(lines, idx, target + 1, Seq::empty(), None, Seq::empty());
            let next = if inner.1 <= idx {
                idx + 1
            } else if inner.1 > lines.len() {
                lines.len() as int
            } else {
                inner.1
            };
            extract_spec(
                lines,
                next,
                target,
                acc_secs,
                Some((opened.0.0, inner.0)),
                opened.1,
            )
        } else {
            extract_spec(lines, idx + 1, target, acc_secs, cur, push_line(acc, line))
        }
    }
}

/// The document with its front matter block (the first two `---` lines and
/// everything between) removed; a document that does not open with `---`
/// is returned unchanged.
pub open spec fn remove_frontmatter_of(md: Seq<char>) -> Seq<char> {
    let ls = lines_of(md);
    if ls.len() > 0 && trim_of(ls[0]) == "---"@ {
        let j = marker_idx(ls, 1);
        if j >= ls.len() {
            Seq::empty()
        } else {
            join_nl(ls.subrange(j + 1, ls.len() as int))
        }
    } else {
        md
    }
}

/// Strips a leading front matter block, leaving the rest of the lines
/// joined by newlines; a document that does not open with `---` comes
/// back unchanged.
pub fn remove_frontmatter(md: &str) -> (r: String)
    ensures
        r@ == remove_frontmatter_of(md@),
{
    let ghost lsv = lines_of(md@);
    let lines = split_lines(md);
    proof {
        reveal_strlit("---");
    }
    let marker = String::from_str("---");
    if lines.len() > 0 {
        let first = trim(lines[0].as_str());
        if first.eq(&marker) {
            let j = find_marker(&lines, 1);
            if j == lines.len() {
                return String::new();
            }
            return join_lines(&lines, j + 1, lines.len());
        }
    }
    md.to_owned()
}

/// Index of the first line at or after `from` whose trimmed text starts
/// with the given heading prefix, or the number of lines.
pub open spec fn heading_idx(lines: Seq<Seq<char>>, from: int, prefix: Seq<char>) -> int
    decreases lines.len() - from,
{
    if from < 0 || from >= lines.len() {
        lines.len() as int
    } else if starts_with_of(trim_of(lines[from]), prefix) {
        from
    } else {
        heading_idx(lines, from + 1, prefix)
    }
}

proof fn lemma_heading_idx(lines: Seq<Seq<char>>, from: int, d: int, prefix: Seq<char>)
    requires
        0 <= from,
        from + d <= lines.len(),
        0 <= d,
        forall|q: int|
            from <= q < from + d ==> !starts_with_of(trim_of(#[trigger] lines[q]), prefix),
        from + d < lines.len() ==> starts_with_of(trim_of(lines[from + d]), prefix),
    ensures
        heading_idx(lines, from, prefix) == if from + d < lines.len() {
            from + d
        } else {
            lines.len() as int
        },
    decreases d,
{
    if d > 0 {
        lemma_heading_idx(lines, from + 1, d - 1, prefix);
    }
}

/// Index of the first line whose trimmed text starts with `prefix`.
#[verifier::loop_isolation(false)]
fn find_heading(lines: &Vec<String>, from: usize, prefix: &str) -> (r: usize)
    requires
        from <= lines@.len(),
    ensures
        r == heading_idx(lines.deep_view(), from as int, prefix@),
        from <= r <= lines@.len(),
{
    let mut i = from;
    while i < lines.len()
        invariant
            from <= i <= lines@.len(),
            forall|q: int|
                from <= q < i ==> !starts_with_of(
                    trim_of(#[trigger] lines.deep_view()[q]),
                    prefix@,
                ),
        decreases lines@.len() - i,
    {
        let t = trim(lines[i].as_str());
        if starts_with(t.as_str(), prefix) {
            proof {
                lemma_heading_idx(lines.deep_view(), from as int, i - from, prefix@);
            }
            return i;
        }
        i = i + 1;
    }
    proof {
        lemma_heading_idx(lines.deep_view(), from as int, lines@.len() - from, prefix@);
    }
    lines.len()
}

/// The wire tree of a section.
pub open spec fn section_tree(s: SectionV) -> TreeV
    decreases s,
{
    TreeV::Mapping(
        seq![
            ("title"@, TreeV::Text(s.title)),
            ("content"@, TreeV::Text(s.content)),
            (
                "sections"@,
                TreeV::Sequence(
                    Seq::new(
                        s.sections.len(),
                        |i: int|
                            if 0 <= i < s.sections.len() {
                                section_tree(s.sections[i])
                            } else {
                                TreeV::Null
                            },
                    ),
                ),
            ),
        ],
    )
}

/// The wire tree of a whole document.
pub open spec fn document_tree(
    title: Seq<char>,
    content: Seq<char>,
    sections: Seq<SectionV>,
) -> TreeV {
    TreeV::Mapping(
        seq![
            ("title"@, TreeV::Text(title)),
            ("content"@, TreeV::Text(content)),
            (
                "sections"@,
                TreeV::Sequence(
                    Seq::new(
                        sections.len(),
                        |i: int|
                            if 0 <= i < sections.len() {
                                section_tree(sections[i])
                            } else {
                                TreeV::Null
                            },
                    ),
                ),
            ),
        ],
    )
}

/// The document tree a heading-structured text denotes: the first `# `
/// line gives the title (`Untitled Document` when absent), the lines up to
/// the first `## ` give the content, and the heading walk gives the
/// sections.
pub open spec fn md_document_tree(md: Seq<char>) -> TreeV {
    let cleaned = trim_of(remove_frontmatter_of(md));
    let lines = lines_of(cleaned);
    let ti = heading_idx(lines, 0, "# "@);
    let title = if ti < lines.len() {
        trim_of(trim_of(lines[ti]).skip(2))
    } else {
        "Untitled Document"@
    };
    let start = if ti < lines.len() {
        ti + 1
    } else {
        0
    };
    let h2 = heading_idx(lines, start, "## "@);
    let content = if h2 > start {
        trim_of(join_nl(lines.subrange(start, h2)))
    } else {
        Seq::empty()
    };
    let sections = extract_spec(lines, start, 1, Seq::empty(), None, Seq::empty()).0;
    document_tree(title, content, sections)
}

/// What the transform yields: the document tree rendered as YAML text.
pub open spec fn md_headings_to_yaml_spec(md: Seq<char>) -> Seq<char> {
    match yaml_text_of(md_document_tree(md)) {
        Some(s) => s,
        None => "Error serializing to YAML"@,
    }
}

/// The heading level of a (trimmed) line.
fn heading_level(line: &str) -> (r: usize)
    ensures
        r == heading_level_of(line@),
        r <= 5,
{
    if starts_with(line, "##### ") {
        5
    } else if starts_with(line, "#### ") {
        4
    } else if starts_with(line, "### ") {
        3
    } else if starts_with(line, "## ") {
        2
    } else if starts_with(line, "# ") {
        1
    } else {
        0
    }
}

/// Model of a pending section.
pub open spec fn cur_view(cur: Option<(String, Vec<Section>)>) -> Option<(Seq<char>, Seq<
    SectionV,
>)> {
    match cur {
        Some(c) => Some((c.0@, sections_view(c.1@))),
        None => None,
    }
}

/// Closes off the pending section.
#[verifier::loop_isolation(false)]
fn close_section_exec(
    acc_secs: Vec<Section>,
    cur: Option<(String, Vec<Section>)>,
    acc: &String,
) -> (r: Vec<Section>)
    ensures
        sections_view(r@) == close_section(sections_view(acc_secs@), cur_view(cur), acc@),
{
    let ghost pre = sections_view(acc_secs@);
    match cur {
        Some(c) => {
            let sec = Section { title: c.0, content: trim(acc.as_str()), sections: c.1 };
            let ghost secv = sec@;
            let mut out = acc_secs;
            out.push(sec);
            proof {
                assert(sections_view(out@) =~= pre.push(secv));
            }
            out
        },
        None => acc_secs,
    }
}

/// Walks the lines from `idx`, collecting sections of level `target + 1`.
#[verifier::loop_isolation(false)]
fn extract_sections(
    lines: &Vec<String>,
    idx: usize,
    target: usize,
    acc_secs: Vec<Section>,
    cur: Option<(String, Vec<Section>)>,
    acc: String,
) -> (r: (Vec<Section>, usize))
    requires
        1 <= target <= 5,
        idx <= lines@.len(),
    ensures
        ({
            let spec = extract_spec(
                lines.deep_view(),
                idx as int,
                target as int,
                sections_view(acc_secs@),
                cur_view(cur),
                acc@,
            );
            sections_view(r.0@) == spec.0 && r.1 as int == spec.1 && r.1 <= lines@.len()
        }),
    decreases lines@.len() - idx, 5 - target,
{
    proof {
        reveal_strlit("##### ");
        reveal_strlit("#### ");
        reveal_strlit("### ");
        reveal_strlit("## ");
        reveal_strlit("# ");
    }
    if idx >= lines.len() {
        let closed = close_section_exec(acc_secs, cur, &acc);
        return (closed, idx);
    }
    let line = trim(lines[idx].as_str());
    proof {
        assert(lines.deep_view()[idx as int] == lines@[idx as int]@);
    }
    let level = heading_level(line.as_str());
    if level > 0 && level <= target {
        let closed = close_section_exec(acc_secs, cur, &acc);
        return (closed, idx);
    }
    if level == target + 1 {
        let closed = close_section_exec(acc_secs, cur, &acc);
        let n = line.as_str().unicode_len();
        let rest = line.as_str().substring_char(level, n);
        let title = trim(rest);
        proof {
            assert(rest@ =~= trim_of(lines.deep_view()[idx as int]).skip(level as int));
        }
        proof {
            assert(sections_view(Seq::<Section>::empty()) =~= Seq::<SectionV>::empty());
        }
        return extract_sections(
            lines,
            idx + 1,
            target,
            closed,
            Some((title, Vec::new())),
            String::new(),
        );
    }
    if level > target + 1 {
        let (opened_title, opened_subs, acc_after): (String, Vec<Section>, String) = match cur {
            Some(c) => (c.0, c.1, acc),
            None => (String::new(), Vec::new(), String::new()),
        };
        let inner = extract_sections(lines, idx, target + 1, Vec::new(), None, String::new());
        let next = if inner.1 <= idx {
            idx + 1
        } else {
            inner.1
        };
        proof {
            assert(sections_view(Seq::<Section>::empty()) =~= Seq::<SectionV>::empty());
        }
        return extract_sections(
            lines,
            next,
            target,
            acc_secs,
            Some((opened_title, inner.0)),
            acc_after,
        );
    }
    let mut acc2 = acc;
    if acc2.as_str().unicode_len() == 0 {
        acc2 = line;
    } else {
        acc2.append("\n");
        acc2.append(line.as_str());
        proof {
            reveal_strlit("\n");
            assert(acc2@ =~= acc@ + seq!['\n'] + trim_of(lines.deep_view()[idx as int]));
        }
    }
    extract_sections(lines, idx + 1, target, acc_secs, cur, acc2)
}

/// Builds the wire tree of a section list.
#[verifier::loop_isolation(false)]
fn sections_tree_exec(ss: &Vec<Section>) -> (r: Vec<Tree>)
    ensures
        crate::tree::elems_view(r@) == Seq::new(
            sections_view(ss@).len(),
            |i: int|
                if 0 <= i < sections_view(ss@).len() {
                    section_tree(sections_view(ss@)[i])
                } else {
                    TreeV::Null
                },
        ),
    decreases ss,
{
    let mut out: Vec<Tree> = Vec::new();
    for i in 0..ss.len()
        invariant
            out@.len() == i,
            forall|j: int| 0 <= j < i ==> out@[j]@ == section_tree(sections_view(ss@)[j]),
        decreases ss@.len() - i,
    {
        proof {
            assert(sections_view(ss@)[i as int] == ss@[i as int]@);
        }
        let t = section_tree_exec(&ss[i]);
        out.push(t);
    }
    proof {
        assert(crate::tree::elems_view(out@) =~= Seq::new(
            sections_view(ss@).len(),
            |i: int|
                if 0 <= i < sections_view(ss@).len() {
                    section_tree(sections_view(ss@)[i])
                } else {
                    TreeV::Null
                },
        ));
    }
    out
}

/// Builds the wire tree of one section.
fn section_tree_exec(s: &Section) -> (r: Tree)
    ensures
        r@ == section_tree(s@),
    decreases s,
{
    proof {
        reveal_strlit("title");
        reveal_strlit("content");
        reveal_strlit("sections");
    }
    let tk = String::from_str("title");
    let tv = Tree::Text(s.title.clone());
    let ck = String::from_str("content");
    let cv = Tree::Text(s.content.clone());
    let sk = String::from_str("sections");
    let subs = sections_tree_exec(&s.sections);
    let ghost subsv = crate::tree::elems_view(subs@);
    let sv = Tree::Sequence(subs);
    proof {
        assert(sv@ == TreeV::Sequence(subsv));
        assert(subsv =~~= section_tree(s@)->Mapping_0[2].1->Sequence_0);
    }
    let mut entries: Vec<(String, Tree)> = Vec::new();
    entries.push((tk, tv));
    entries.push((ck, cv));
    entries.push((sk, sv));
    let r = Tree::Mapping(entries);
    proof {
        assert(crate::tree::entries_view(entries@)[0] == ("title"@, TreeV::Text(s@.title)));
        assert(crate::tree::entries_view(entries@)[1] == ("content"@, TreeV::Text(s@.content)));
        assert(crate::tree::entries_view(entries@)[2] == ("sections"@, TreeV::Sequence(subsv)));
        assert(r@ == TreeV::Mapping(crate::tree::entries_view(entries@)));
        assert(r@->Mapping_0 =~~= section_tree(s@)->Mapping_0);
        assert(r@ =~~= section_tree(s@));
    }
    r
}

/// Converts heading-structured text into a YAML document: the first `# `
/// line becomes the title (`Untitled Document` when absent), the text up
/// to the first `## ` becomes the content, and deeper headings become
/// nested sections. A front matter block is dropped first.
#[verifier::loop_isolation(false)]
pub fn md_headings_to_yaml(md: &str) -> (r: String)
    ensures
        r@ == md_headings_to_yaml_spec(md@),
{
    proof {
        reveal_strlit("title");
        reveal_strlit("content");
        reveal_strlit("sections");
    }
    let cleaned = remove_frontmatter(md);
    let trimmed = trim(cleaned.as_str());
    let lines = split_lines(trimmed.as_str());
    let ghost linesv = lines_of(trim_of(remove_frontmatter_of(md@)));
    let ti = find_heading(&lines, 0, "# ");
    let (title, start): (String, usize) = if ti < lines.len() {
        let l = trim(lines[ti].as_str());
        proof {
            assert(lines.deep_view()[ti as int] == lines@[ti as int]@);
            assert(starts_with_of(trim_of(lines.deep_view()[ti as int]), "# "@)) by {
                lemma_heading_idx_hit(lines.deep_view(), 0, ti as int, "# "@);
            }
            reveal_strlit("# ");
        }
        let n = l.as_str().unicode_len();
        let rest = l.as_str().substring_char(2, n);
        let t = trim(rest);
        proof {
            assert(rest@ =~= trim_of(lines.deep_view()[ti as int]).skip(2));
            assert(t@ == trim_of(trim_of(lines.deep_view()[ti as int]).skip(2)));
        }
        (t, ti + 1)
    } else {
        let t = String::from_str("Untitled Document");
        proof {
            reveal_strlit("Untitled Document");
        }
        (t, 0)
    };
    let h2 = find_heading(&lines, start, "## ");
    let content: String = if h2 > start {
        let joined = join_lines(&lines, start, h2);
        trim(joined.as_str())
    } else {
        let e = String::new();
        e
    };
    proof {
        assert(sections_view(Seq::<Section>::empty()) =~= Seq::<SectionV>::empty());
    }
    let extracted = extract_sections(&lines, start, 1, Vec::new(), None, String::new());
    let subs = sections_tree_exec(&extracted.0);
    let ghost subsv = crate::tree::elems_view(subs@);
    let ghost titleg = title@;
    let ghost contentg = content@;
    let ghost sectionsg = sections_view(extracted.0@);
    let sections_t = Tree::Sequence(subs);
    let tk = String::from_str("title");
    let tv = Tree::Text(title);
    let ck = String::from_str("content");
    let cv = Tree::Text(content);
    let sk = String::from_str("sections");
    let mut entries: Vec<(String, Tree)> = Vec::new();
    entries.push((tk, tv));
    entries.push((ck, cv));
    entries.push((sk, sections_t));
    let doc = Tree::Mapping(entries);
    proof {
        let lsv = lines_of(trim_of(remove_frontmatter_of(md@)));
        assert(lines.deep_view() == lsv);
        let tiv = heading_idx(lsv, 0, "# "@);
        let titlev = if tiv < lsv.len() {
            trim_of(trim_of(lsv[tiv]).skip(2))
        } else {
            "Untitled Document"@
        };
        let startv: int = if tiv < lsv.len() {
            tiv + 1
        } else {
            0
        };
        assert(titleg == titlev && start as int == startv);
        let h2v = heading_idx(lsv, startv, "## "@);
        let contentv: Seq<char> = if h2v > startv {
            trim_of(join_nl(lsv.subrange(startv, h2v)))
        } else {
            Seq::empty()
        };
        assert(contentg == contentv);
        let spec_sections = extract_spec(lsv, startv, 1, Seq::empty(), None, Seq::empty()).0;
        assert(sectionsg == spec_sections);
        assert(subsv =~~= md_document_tree(md@)->Mapping_0[2].1->Sequence_0);
        assert(crate::tree::entries_view(entries@)[0] == ("title"@, TreeV::Text(titleg)));
        assert(crate::tree::entries_view(entries@)[1] == ("content"@, TreeV::Text(contentg)));
        assert(crate::tree::entries_view(entries@)[2] == ("sections"@, TreeV::Sequence(subsv)));
        assert(doc@ == TreeV::Mapping(crate::tree::entries_view(entries@)));
        assert(doc@->Mapping_0 =~~= md_document_tree(md@)->Mapping_0);
        assert(doc@ =~~= md_document_tree(md@));
    }
    match encode_yaml_raw(&doc) {
        Some(s) => s,
        None => String::from_str("Error serializing to YAML"),
    }
}

/// A found heading index points at a line with the prefix.
proof fn lemma_heading_idx_hit(lines: Seq<Seq<char>>, from: int, r: int, prefix: Seq<char>)
    requires
        0 <= from <= lines.len(),
        r == heading_idx(lines, from, prefix),
        r < lines.len(),
    ensures
        starts_with_of(trim_of(lines[r]), prefix),
        from <= r,
    decreases lines.len() - from,
{
    if from < lines.len() && !starts_with_of(trim_of(lines[from]), prefix) {
        lemma_heading_idx_hit(lines, from + 1, r, prefix);
    }
}

} // verus!
