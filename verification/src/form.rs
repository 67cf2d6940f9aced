//! Multipart forms as plain data.

use vstd::prelude::*;

verus! {

/// One part of a form.
#[derive(Debug, Clone)]
pub enum MyPart {
    Text { name: String, value: String },
    File { name: String, bytes: Vec<u8> },
}

/// What a [`MyPart`] holds, as plain values.
pub enum PartView {
    Text { name: Seq<char>, value: Seq<char> },
    File { name: Seq<char>, bytes: Seq<u8> },
}

impl View for MyPart {
    type V = PartView;

    open spec fn view(&self) -> PartView {
        match self {
            MyPart::Text { name, value } => PartView::Text { name: name@, value: value@ },
            MyPart::File { name, bytes } => PartView::File { name: name@, bytes: bytes@ },
        }
    }
}

/// A form: its parts in the order in which they were added.
#[derive(Debug, Clone)]
pub struct MyForm {
    parts: Vec<MyPart>,
}

impl View for MyForm {
    type V = Seq<PartView>;

    closed spec fn view(&self) -> Seq<PartView> {
        Seq::new(self.parts@.len(), |i: int| self.parts@[i]@)
    }
}

impl MyForm {
    /// A form without parts.
    pub fn new() -> (form: MyForm)
        ensures
            form@ == Seq::<PartView>::empty(),
    {
        let form = MyForm { parts: Vec::new() };
        assert(form@ =~= Seq::<PartView>::empty());
        form
    }

    /// The form with one more part, a text field.
    pub fn text(self, name: &str, value: &str) -> (form: MyForm)
        ensures
            form@ == self@.push(PartView::Text { name: name@, value: value@ }),
    {
        let mut form = self;
        form.parts.push(MyPart::Text { name: name.to_owned(), value: value.to_owned() });
        assert(form@ =~= self@.push(PartView::Text { name: name@, value: value@ }));
        form
    }

    /// The form with one more part, a file.
    pub fn file(self, name: &str, bytes: Vec<u8>) -> (form: MyForm)
        ensures
            form@ == self@.push(PartView::File { name: name@, bytes: bytes@ }),
    {
        let mut form = self;
        form.parts.push(MyPart::File { name: name.to_owned(), bytes });
        assert(form@ =~= self@.push(PartView::File { name: name@, bytes: bytes@ }));
        form
    }

    /// Number of parts.
    pub fn len(&self) -> (n: usize)
        ensures
            n == self@.len(),
    {
        self.parts.len()
    }

    /// The part at `index`, counted from zero.
    pub fn part(&self, index: usize) -> (part: &MyPart)
        requires
            index < self@.len(),
        ensures
            part@ == self@[index as int],
    {
        &self.parts[index]
    }
}

} // verus!
