//! Text with bold and italic runs, as lines of a book hold it.
use vstd::prelude::*;

verus! {

/// The style of a run of text.
#[derive(Debug, Clone, Copy, PartialEq, Eq, Structural)]
pub struct TextStyle {
    pub bold: bool,
    pub italic: bool,
}

impl TextStyle {
    /// The plain style: neither bold nor italic.
    pub fn of_plain() -> (s: Self)
        ensures
            !s.bold && !s.italic,
    {
        TextStyle { bold: false, italic: false }
    }

    /// This style, bold or not.
    pub fn set_bold(self, bold: bool) -> (s: Self)
        ensures
            s == (TextStyle { bold, ..self }),
    {
        TextStyle { bold, ..self }
    }

    /// This style, italic or not.
    pub fn set_italic(self, italic: bool) -> (s: Self)
        ensures
            s == (TextStyle { italic, ..self }),
    {
        TextStyle { italic, ..self }
    }

    /// Whether the style is plain.
    pub fn is_plain(&self) -> (b: bool)
        ensures
            b == (!self.bold && !self.italic),
    {
        !self.bold && !self.italic
    }
}

/// A run of text in one style.
#[derive(Debug, Clone)]
pub struct TextItem {
    pub text: String,
    pub style: TextStyle,
}

/// Text made of runs, each in its own style.
#[derive(Debug, Clone)]
pub struct RichText {
    pub items: Vec<TextItem>,
}

/// The model of a run: its characters and its style.
pub open spec fn item_model(i: TextItem) -> (Seq<char>, TextStyle) {
    (i.text@, i.style)
}

impl View for RichText {
    /// The runs, in order.
    type V = Seq<(Seq<char>, TextStyle)>;

    open spec fn view(&self) -> Seq<(Seq<char>, TextStyle)> {
        Seq::new(self.items@.len(), |i: int| item_model(self.items@[i]))
    }
}

impl RichText {
    /// Empty text.
    pub fn new() -> (t: Self)
        ensures
            t@ == Seq::<(Seq<char>, TextStyle)>::empty(),
    {
        let t = RichText { items: Vec::new() };
        assert(t@ =~= Seq::<(Seq<char>, TextStyle)>::empty());
        t
    }

    /// Appends a run of plain text.
    pub fn add_plain_text(&mut self, text: &str)
        ensures
            final(self)@ == old(self)@.push((text@, TextStyle { bold: false, italic: false })),
    {
        self.add_text(text, TextStyle::of_plain());
    }

    /// Appends a run of text in `style`.
    pub fn add_text(&mut self, text: &str, style: TextStyle)
        ensures
            final(self)@ == old(self)@.push((text@, style)),
    {
        self.items.push(TextItem { text: text.to_owned(), style });
        assert(self@ =~= old(self)@.push((text@, style)));
    }
}

} // verus!
