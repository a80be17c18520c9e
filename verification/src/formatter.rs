//! Formatters that lay out retrieved context for a language model.

use vstd::prelude::*;
use crate::node_type::{NodeType, node_type_name};
use crate::strategy::views;
use crate::text::{decimal, usize_to_string};

verus! {

broadcast use vstd::string::group_string_axioms;

/// Format style for context output.
#[derive(Debug, Clone, Copy, PartialEq, Eq)]
pub enum FormatStyle {
    /// Simple flat list.
    Flat,
    /// Sections and hierarchy.
    Structured,
    /// JSON for programmatic consumption.
    Json,
    /// Markdown.
    Markdown,
    /// Compressed.
    Compact,
}

/// The texts that are not empty, in order.
pub open spec fn nonempty_texts(parts: Seq<Seq<char>>) -> Seq<Seq<char>>
    decreases parts.len(),
{
    if parts.len() == 0 {
        Seq::empty()
    } else if parts.last().len() == 0 {
        nonempty_texts(parts.drop_last())
    } else {
        nonempty_texts(parts.drop_last()).push(parts.last())
    }
}

/// The texts joined with a separator between each two.
pub open spec fn join_with(parts: Seq<Seq<char>>, sep: Seq<char>) -> Seq<char>
    decreases parts.len(),
{
    if parts.len() == 0 {
        Seq::empty()
    } else if parts.len() == 1 {
        parts[0]
    } else {
        join_with(parts.drop_last(), sep) + sep + parts.last()
    }
}

/// Joins the non-empty texts with a separator between each two.
pub fn join_nonempty(contents: &[String], sep: &str) -> (r: String)
    ensures
        r@ == join_with(nonempty_texts(views(contents@)), sep@),
{
    let mut out = String::new();
    let mut count: usize = 0;
    let mut i: usize = 0;
    assert(views(contents@).take(0) =~= Seq::<Seq<char>>::empty());
    while i < contents.len()
        invariant
            i <= contents@.len(),
            out@ == join_with(nonempty_texts(views(contents@).take(i as int)), sep@),
            count == nonempty_texts(views(contents@).take(i as int)).len(),
            count <= i,
        decreases contents@.len() - i,
    {
        let ghost parts = views(contents@).take(i + 1);
        proof {
            assert(parts.drop_last() =~= views(contents@).take(i as int));
            assert(parts.last() == contents@[i as int]@);
        }
        let c = contents[i].as_str();
        if !c.is_empty() {
            let ghost prev = nonempty_texts(views(contents@).take(i as int));
            if count > 0 {
                out.append(sep);
            }
            out.append(c);
            proof {
                let next = prev.push(c@);
                assert(next.drop_last() =~= prev);
                if count == 0 {
                    assert(out@ =~= next[0]);
                } else {
                    assert(out@ =~= join_with(next.drop_last(), sep@) + sep@ + next.last());
                }
            }
            count = count + 1;
        }
        i = i + 1;
    }
    assert(views(contents@).take(contents@.len() as int) =~= views(contents@));
    out
}

/// Flat formatter: the contents as a plain list.
#[derive(Debug, Clone, Copy, PartialEq, Eq)]
pub struct FlatFormatter;

impl FlatFormatter {
    /// A flat formatter.
    pub fn new() -> (r: FlatFormatter)
        ensures
            r == FlatFormatter,
    {
        FlatFormatter
    }

    /// The name of this formatter.
    pub fn name(&self) -> (r: &'static str)
        ensures
            r@ == "flat"@,
    {
        "flat"
    }

    /// The non-empty contents, separated by a `---` rule between blank
    /// lines.
    pub fn format(&self, contents: &[String]) -> (r: String)
        ensures
            r@ == join_with(nonempty_texts(views(contents@)), "\n\n---\n\n"@),
    {
        join_nonempty(contents, "\n\n---\n\n")
    }
}

impl Default for FlatFormatter {
    fn default() -> (r: FlatFormatter)
        ensures
            r == FlatFormatter,
    {
        FlatFormatter::new()
    }
}

/// Structured formatter: sections with metadata.
#[derive(Debug, Clone)]
pub struct StructuredFormatter {
    /// Section header for the retrieved context.
    pub section_header: String,
    /// Include metadata in the output.
    pub include_metadata: bool,
    /// Include relations in the output.
    pub include_relations: bool,
}

impl StructuredFormatter {
    /// A structured formatter with the header "Retrieved Context" and
    /// metadata on.
    pub fn new() -> (r: StructuredFormatter)
        ensures
            r.section_header@ == "Retrieved Context"@,
            r.include_metadata,
            !r.include_relations,
    {
        StructuredFormatter {
            section_header: String::from_str("Retrieved Context"),
            include_metadata: true,
            include_relations: false,
        }
    }

    /// This formatter with the given section header.
    pub fn with_header(self, header: String) -> (r: StructuredFormatter)
        ensures
            r == (StructuredFormatter { section_header: header, ..self }),
    {
        StructuredFormatter { section_header: header, ..self }
    }

    /// This formatter with metadata on or off.
    pub fn with_metadata(self, enabled: bool) -> (r: StructuredFormatter)
        ensures
            r == (StructuredFormatter { include_metadata: enabled, ..self }),
    {
        StructuredFormatter { include_metadata: enabled, ..self }
    }

    /// This formatter with relations on or off.
    pub fn with_relations(self, enabled: bool) -> (r: StructuredFormatter)
        ensures
            r == (StructuredFormatter { include_relations: enabled, ..self }),
    {
        StructuredFormatter { include_relations: enabled, ..self }
    }

    /// The name of this formatter.
    pub fn name(&self) -> (r: &'static str)
        ensures
            r@ == "structured"@,
    {
        "structured"
    }
}

impl Default for StructuredFormatter {
    fn default() -> (r: StructuredFormatter)
        ensures
            r.section_header@ == "Retrieved Context"@,
            r.include_metadata,
            !r.include_relations,
    {
        StructuredFormatter::new()
    }
}

/// Markdown formatter.
#[derive(Debug, Clone, Copy, PartialEq, Eq)]
pub struct MarkdownFormatter;

impl MarkdownFormatter {
    /// A markdown formatter.
    pub fn new() -> (r: MarkdownFormatter)
        ensures
            r == MarkdownFormatter,
    {
        MarkdownFormatter
    }

    /// The name of this formatter.
    pub fn name(&self) -> (r: &'static str)
        ensures
            r@ == "markdown"@,
    {
        "markdown"
    }
}

impl Default for MarkdownFormatter {
    fn default() -> (r: MarkdownFormatter)
        ensures
            r == MarkdownFormatter,
    {
        MarkdownFormatter::new()
    }
}

/// JSON formatter, for programmatic consumption.
#[derive(Debug, Clone, Copy, PartialEq, Eq)]
pub struct JsonFormatter {
    /// Pretty-print the JSON.
    pub pretty: bool,
}

impl JsonFormatter {
    /// A JSON formatter that pretty-prints.
    pub fn new() -> (r: JsonFormatter)
        ensures
            r.pretty,
    {
        JsonFormatter { pretty: true }
    }

    /// This formatter with pretty-printing on or off.
    pub fn with_pretty(self, pretty: bool) -> (r: JsonFormatter)
        ensures
            r.pretty == pretty,
    {
        JsonFormatter { pretty }
    }

    /// The name of this formatter.
    pub fn name(&self) -> (r: &'static str)
        ensures
            r@ == "json"@,
    {
        "json"
    }
}

impl Default for JsonFormatter {
    fn default() -> (r: JsonFormatter)
        ensures
            r.pretty,
    {
        JsonFormatter::new()
    }
}

/// Compact formatter: minimal output.
#[derive(Debug, Clone, Copy, PartialEq, Eq)]
pub struct CompactFormatter;

impl CompactFormatter {
    /// A compact formatter.
    pub fn new() -> (r: CompactFormatter)
        ensures
            r == CompactFormatter,
    {
        CompactFormatter
    }

    /// The name of this formatter.
    pub fn name(&self) -> (r: &'static str)
        ensures
            r@ == "compact"@,
    {
        "compact"
    }

    /// The non-empty contents separated by single spaces.
    pub fn format(&self, contents: &[String]) -> (r: String)
        ensures
            r@ == join_with(nonempty_texts(views(contents@)), " "@),
    {
        join_nonempty(contents, " ")
    }
}

impl Default for CompactFormatter {
    fn default() -> (r: CompactFormatter)
        ensures
            r == CompactFormatter,
    {
        CompactFormatter::new()
    }
}

/// One retrieved node as the formatters lay it out: its content, type and
/// distance in hops from a seed, and its relevance score already written
/// with two decimals.
#[derive(Debug, Clone, PartialEq, Eq)]
pub struct ContextEntry {
    /// The node's content.
    pub content: String,
    /// The node's type.
    pub node_type: NodeType,
    /// Hops from the nearest seed node.
    pub hop_distance: usize,
    /// The relevance score, written with two decimals.
    pub score_text: String,
}

/// The lines of one entry in the structured layout: its number, then its
/// score, type and distance as asked for, then its content.
pub open spec fn structured_entry(i: nat, e: ContextEntry, scores: bool, metadata: bool) -> Seq<Seq<char>> {
    seq!["\n["@ + decimal(i + 1) + "]"@] + (if scores {
        seq!["Relevance: "@ + e.score_text@]
    } else {
        Seq::empty()
    }) + (if metadata {
        seq!["Type: "@ + node_type_name(e.node_type)] + (if e.hop_distance > 0 {
            seq!["Distance: "@ + decimal(e.hop_distance as nat) + " hops"@]
        } else {
            Seq::empty()
        })
    } else {
        Seq::empty()
    }) + seq!["Content: "@ + e.content@]
}

/// The lines of the entries in the structured layout.
pub open spec fn structured_lines(es: Seq<ContextEntry>, scores: bool, metadata: bool) -> Seq<Seq<char>>
    decreases es.len(),
{
    if es.len() == 0 {
        Seq::empty()
    } else {
        structured_lines(es.drop_last(), scores, metadata) + structured_entry(
            (es.len() - 1) as nat,
            es.last(),
            scores,
            metadata,
        )
    }
}

/// The lines of one entry in the markdown layout: a numbered heading with
/// its type, its score as asked for, then its content.
pub open spec fn markdown_entry(i: nat, e: ContextEntry, scores: bool) -> Seq<Seq<char>> {
    seq!["\n## "@ + decimal(i + 1) + ". "@ + node_type_name(e.node_type) + "\n"@] + (if scores {
        seq!["**Relevance:** "@ + e.score_text@ + "\n"@]
    } else {
        Seq::empty()
    }) + seq![e.content@]
}

/// The lines of the entries in the markdown layout.
pub open spec fn markdown_lines(es: Seq<ContextEntry>, scores: bool) -> Seq<Seq<char>>
    decreases es.len(),
{
    if es.len() == 0 {
        Seq::empty()
    } else {
        markdown_lines(es.drop_last(), scores) + markdown_entry((es.len() - 1) as nat, es.last(), scores)
    }
}

/// Appends `line` to a text of lines joined by newlines; `started` tells
/// whether any line is there yet.
fn push_line(out: &mut String, started: &mut bool, line: String, Ghost(lines): Ghost<Seq<Seq<char>>>)
    requires
        old(out)@ == join_with(lines, "\n"@),
        *old(started) == (lines.len() > 0),
    ensures
        final(out)@ == join_with(lines.push(line@), "\n"@),
        *final(started),
{
    if *started {
        out.append("\n");
    }
    out.append(line.as_str());
    proof {
        let next = lines.push(line@);
        assert(next.drop_last() =~= lines);
        if lines.len() == 0 {
            assert(final(out)@ =~= next[0]);
        } else {
            assert(final(out)@ =~= join_with(next.drop_last(), "\n"@) + "\n"@ + next.last());
        }
    }
    *started = true;
}

/// Appends the structured lines of entry `i`.
fn push_structured_entry(
    out: &mut String,
    started: &mut bool,
    i: usize,
    e: &ContextEntry,
    scores: bool,
    metadata: bool,
    Ghost(lines): Ghost<Seq<Seq<char>>>,
)
    requires
        old(out)@ == join_with(lines, "\n"@),
        *old(started) == (lines.len() > 0),
        i < usize::MAX,
    ensures
        final(out)@ == join_with(lines + structured_entry(i as nat, *e, scores, metadata), "\n"@),
        *final(started),
{
    let ghost mut ls = lines;
    let number = usize_to_string(i + 1);
    push_line(out, started, String::from_str("\n[").concat(number.as_str()).concat("]"), Ghost(ls));
    proof {
        ls = ls.push("\n["@ + decimal((i + 1) as nat) + "]"@);
    }
    if scores {
        push_line(out, started, String::from_str("Relevance: ").concat(e.score_text.as_str()), Ghost(ls));
        proof {
            ls = ls.push("Relevance: "@ + e.score_text@);
        }
    }
    if metadata {
        let t = e.node_type.to_string();
        push_line(out, started, String::from_str("Type: ").concat(t.as_str()), Ghost(ls));
        proof {
            ls = ls.push("Type: "@ + node_type_name(e.node_type));
        }
        if e.hop_distance > 0 {
            let d = usize_to_string(e.hop_distance);
            push_line(out, started, String::from_str("Distance: ").concat(d.as_str()).concat(" hops"), Ghost(ls));
            proof {
                ls = ls.push("Distance: "@ + decimal(e.hop_distance as nat) + " hops"@);
            }
        }
    }
    push_line(out, started, String::from_str("Content: ").concat(e.content.as_str()), Ghost(ls));
    proof {
        ls = ls.push("Content: "@ + e.content@);
        assert(ls =~= lines + structured_entry(i as nat, *e, scores, metadata));
    }
}

/// Appends the markdown lines of entry `i`.
fn push_markdown_entry(
    out: &mut String,
    started: &mut bool,
    i: usize,
    e: &ContextEntry,
    scores: bool,
    Ghost(lines): Ghost<Seq<Seq<char>>>,
)
    requires
        old(out)@ == join_with(lines, "\n"@),
        *old(started) == (lines.len() > 0),
        i < usize::MAX,
    ensures
        final(out)@ == join_with(lines + markdown_entry(i as nat, *e, scores), "\n"@),
        *final(started),
{
    let ghost mut ls = lines;
    let number = usize_to_string(i + 1);
    let t = e.node_type.to_string();
    push_line(
        out,
        started,
        String::from_str("\n## ").concat(number.as_str()).concat(". ").concat(t.as_str()).concat("\n"),
        Ghost(ls),
    );
    proof {
        ls = ls.push("\n## "@ + decimal((i + 1) as nat) + ". "@ + node_type_name(e.node_type) + "\n"@);
    }
    if scores {
        push_line(out, started, String::from_str("**Relevance:** ").concat(e.score_text.as_str()).concat("\n"), Ghost(ls));
        proof {
            ls = ls.push("**Relevance:** "@ + e.score_text@ + "\n"@);
        }
    }
    push_line(out, started, e.content.clone(), Ghost(ls));
    proof {
        ls = ls.push(e.content@);
        assert(ls =~= lines + markdown_entry(i as nat, *e, scores));
    }
}

impl StructuredFormatter {
    /// Lays out the entries under the section header: for each one its
    /// number, its score (when scores are asked for), its type and distance
    /// (when metadata is asked for, the distance only when positive), and
    /// its content, one per line; or a note that nothing was found.
    pub fn format(&self, entries: &[ContextEntry], include_scores: bool, include_metadata: bool) -> (r: String)
        ensures
            entries@.len() == 0 ==> r@ == "=== "@ + self.section_header@ + " ===\nNo relevant context found."@,
            entries@.len() > 0 ==> r@ == join_with(
                seq!["=== "@ + self.section_header@ + " ==="@] + structured_lines(entries@, include_scores, include_metadata),
                "\n"@,
            ),
    {
        if entries.len() == 0 {
            return String::from_str("=== ").concat(self.section_header.as_str()).concat(" ===\nNo relevant context found.");
        }
        let mut out = String::new();
        let mut started = false;
        let head = String::from_str("=== ").concat(self.section_header.as_str()).concat(" ===");
        let ghost mut lines: Seq<Seq<char>> = Seq::empty();
        assert(out@ =~= join_with(lines, "\n"@));
        push_line(&mut out, &mut started, head, Ghost(lines));
        proof {
            lines = lines.push("=== "@ + self.section_header@ + " ==="@);
            assert(lines =~= seq!["=== "@ + self.section_header@ + " ==="@] + structured_lines(
                entries@.take(0),
                include_scores,
                include_metadata,
            ));
        }
        let mut i: usize = 0;
        while i < entries.len()
            invariant
                i <= entries@.len(),
                out@ == join_with(lines, "\n"@),
                started,
                lines.len() > 0,
                lines == seq!["=== "@ + self.section_header@ + " ==="@] + structured_lines(
                    entries@.take(i as int),
                    include_scores,
                    include_metadata,
                ),
            decreases entries@.len() - i,
        {
            let ghost base = lines;
            push_structured_entry(&mut out, &mut started, i, &entries[i], include_scores, include_metadata, Ghost(lines));
            proof {
                lines = base + structured_entry(i as nat, entries@[i as int], include_scores, include_metadata);
                let es = entries@.take(i + 1);
                assert(es.drop_last() =~= entries@.take(i as int));
                assert(lines =~= seq!["=== "@ + self.section_header@ + " ==="@] + structured_lines(
                    es,
                    include_scores,
                    include_metadata,
                ));
            }
            i = i + 1;
        }
        assert(entries@.take(entries@.len() as int) =~= entries@);
        out
    }
}

impl MarkdownFormatter {
    /// Lays out the entries under a "Retrieved Context" heading: for each
    /// one a numbered heading with its type, its score (when asked for) and
    /// its content, one per line; or a note that nothing was found.
    pub fn format(&self, entries: &[ContextEntry], include_scores: bool) -> (r: String)
        ensures
            entries@.len() == 0 ==> r@ == "# Retrieved Context\n\n*No relevant context found.*"@,
            entries@.len() > 0 ==> r@ == join_with(
                seq!["# Retrieved Context"@] + markdown_lines(entries@, include_scores),
                "\n"@,
            ),
    {
        if entries.len() == 0 {
            return String::from_str("# Retrieved Context\n\n*No relevant context found.*");
        }
        let mut out = String::new();
        let mut started = false;
        let ghost mut lines: Seq<Seq<char>> = Seq::empty();
        assert(out@ =~= join_with(lines, "\n"@));
        push_line(&mut out, &mut started, String::from_str("# Retrieved Context"), Ghost(lines));
        proof {
            lines = lines.push("# Retrieved Context"@);
            assert(lines =~= seq!["# Retrieved Context"@] + markdown_lines(entries@.take(0), include_scores));
        }
        let mut i: usize = 0;
        while i < entries.len()
            invariant
                i <= entries@.len(),
                out@ == join_with(lines, "\n"@),
                started,
                lines.len() > 0,
                lines == seq!["# Retrieved Context"@] + markdown_lines(entries@.take(i as int), include_scores),
            decreases entries@.len() - i,
        {
            let ghost base = lines;
            push_markdown_entry(&mut out, &mut started, i, &entries[i], include_scores, Ghost(lines));
            proof {
                lines = base + markdown_entry(i as nat, entries@[i as int], include_scores);
                let es = entries@.take(i + 1);
                assert(es.drop_last() =~= entries@.take(i as int));
                assert(lines =~= seq!["# Retrieved Context"@] + markdown_lines(es, include_scores));
            }
            i = i + 1;
        }
        assert(entries@.take(entries@.len() as int) =~= entries@);
        out
    }
}

} // verus!
