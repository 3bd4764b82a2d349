//! Incremental Markdown builder for hover contents.
use vstd::prelude::*;

use crate::text::{join, lines, push_char, repeat_char, spec_join, spec_lines, spec_repeat, views};

verus! {

/// Builder that accumulates Markdown lines; the document is the lines
/// joined with newlines.
pub struct MarkdownContent {
    lines: Vec<String>,
}

/// `# text` with `level` hashes.
pub open spec fn heading_line(level: nat, text: Seq<char>) -> Seq<char> {
    spec_repeat('#', level) + seq![' '] + text
}

/// `- **key:** value`.
pub open spec fn bold_list_item_line(key: Seq<char>, value: Seq<char>) -> Seq<char> {
    "- **"@ + key + ":** "@ + value
}

/// `**text**`.
pub open spec fn bold_line(text: Seq<char>) -> Seq<char> {
    "**"@ + text + "**"@
}

/// `  - content`.
pub open spec fn text_item_line(content: Seq<char>) -> Seq<char> {
    "  - "@ + content
}

/// `  - [name](uri)`.
pub open spec fn link_line(name: Seq<char>, uri: Seq<char>) -> Seq<char> {
    "  - ["@ + name + "]("@ + uri + ")"@
}

/// The lines of a fenced code block: the opening fence with the language,
/// the lines of the content, and the closing fence.
pub open spec fn code_block_lines(content: Seq<char>, lang: Seq<char>) -> Seq<Seq<char>> {
    seq!["```"@ + lang] + spec_lines(content) + seq!["```"@]
}

impl MarkdownContent {
    /// The lines accumulated so far.
    pub closed spec fn spec_lines(&self) -> Seq<Seq<char>> {
        views(self.lines@)
    }

    /// The Markdown document: the lines joined with newlines.
    pub open spec fn spec_markdown(&self) -> Seq<char> {
        spec_join(self.spec_lines(), "\n"@)
    }

    /// An empty builder.
    pub fn new() -> (r: Self)
        ensures
            r.spec_lines() == Seq::<Seq<char>>::empty(),
    {
        let r = MarkdownContent { lines: Vec::new() };
        assert(r.spec_lines() =~= Seq::<Seq<char>>::empty());
        r
    }

    fn push_line(&mut self, line: String)
        ensures
            final(self).spec_lines() == old(self).spec_lines().push(line@),
    {
        self.lines.push(line);
        assert(views(self.lines@) =~= views(old(self).lines@).push(line@));
    }

    /// Adds a heading of the given level.
    pub fn heading(&mut self, level: u8, text: &str)
        ensures
            final(self).spec_lines() == old(self).spec_lines().push(heading_line(level as nat, text@)),
    {
        let mut line = repeat_char('#', level as usize);
        push_char(&mut line, ' ');
        line.append(text);
        assert(line@ =~= heading_line(level as nat, text@));
        self.push_line(line);
    }

    /// Adds a line of plain text.
    pub fn text(&mut self, content: &str)
        ensures
            final(self).spec_lines() == old(self).spec_lines().push(content@),
    {
        let mut line = String::new();
        line.append(content);
        self.push_line(line);
    }

    /// Adds a list item with a bold key.
    pub fn bold_list_item(&mut self, key: &str, value: &str)
        ensures
            final(self).spec_lines() == old(self).spec_lines().push(bold_list_item_line(key@, value@)),
    {
        let mut line = String::new();
        line.append("- **");
        line.append(key);
        line.append(":** ");
        line.append(value);
        self.push_line(line);
    }

    /// Adds a line of bold text.
    pub fn bold(&mut self, text: &str)
        ensures
            final(self).spec_lines() == old(self).spec_lines().push(bold_line(text@)),
    {
        let mut line = String::new();
        line.append("**");
        line.append(text);
        line.append("**");
        self.push_line(line);
    }

    /// Adds an indented list item.
    pub fn text_item(&mut self, content: &str)
        ensures
            final(self).spec_lines() == old(self).spec_lines().push(text_item_line(content@)),
    {
        let mut line = String::new();
        line.append("  - ");
        line.append(content);
        self.push_line(line);
    }

    /// Adds an indented list item holding a link.
    pub fn link_with_uri(&mut self, name: &str, uri: &str)
        ensures
            final(self).spec_lines() == old(self).spec_lines().push(link_line(name@, uri@)),
    {
        let mut line = String::new();
        line.append("  - [");
        line.append(name);
        line.append("](");
        line.append(uri);
        line.append(")");
        self.push_line(line);
    }

    /// Adds a horizontal rule.
    pub fn separator(&mut self)
        ensures
            final(self).spec_lines() == old(self).spec_lines().push("---"@),
    {
        let mut line = String::new();
        line.append("---");
        self.push_line(line);
    }

    /// Adds a fenced code block in language `lang`.
    pub fn code_block(&mut self, content: &str, lang: &str)
        ensures
            final(self).spec_lines() == old(self).spec_lines() + code_block_lines(content@, lang@),
    {
        let mut open = String::new();
        open.append("```");
        open.append(lang);
        self.push_line(open);
        let body = lines(content);
        let mut i: usize = 0;
        while i < body.len()
            invariant
                i <= body.len(),
                views(body@) == spec_lines(content@),
                self.spec_lines() == old(self).spec_lines() + seq!["```"@ + lang@] + views(body@).take(i as int),
            decreases body.len() - i,
        {
            let mut line = String::new();
            line.append(body[i].as_str());
            let ghost before = self.spec_lines();
            self.push_line(line);
            assert(views(body@).take(i + 1) =~= views(body@).take(i as int).push(body@[i as int]@));
            i = i + 1;
        }
        let mut close = String::new();
        close.append("```");
        self.push_line(close);
        assert(views(body@).take(body.len() as int) =~= views(body@));
        assert(self.spec_lines() =~= old(self).spec_lines() + code_block_lines(content@, lang@));
    }

    /// The Markdown document.
    pub fn to_markdown(&self) -> (r: String)
        ensures
            r@ == self.spec_markdown(),
    {
        join(&self.lines, "\n")
    }
}

} // verus!
