use vstd::prelude::*;

use crate::input_state::InputState;

verus! {

/// A rectangle of terminal cells.
#[derive(Clone, Copy, Debug, PartialEq, Eq, Structural)]
pub struct Area {
    pub x: u16,
    pub y: u16,
    pub width: u16,
    pub height: u16,
}

pub open spec fn empty_area() -> Area {
    Area { x: 0, y: 0, width: 0, height: 0 }
}

/// The area a widget was last drawn in, if it was drawn at all.
pub struct KnownArea {
    inner: Option<Area>,
}

impl KnownArea {
    pub closed spec fn spec_inner(&self) -> Option<Area> {
        self.inner
    }

    pub fn new() -> (r: KnownArea)
        ensures
            r.spec_inner() is None,
    {
        KnownArea { inner: None }
    }

    /// The last area drawn in, or the empty area at the origin.
    pub fn area(&self) -> (r: Area)
        ensures
            r == (match self.spec_inner() {
                Some(a) => a,
                None => empty_area(),
            }),
    {
        match self.inner {
            Some(a) => a,
            None => Area { x: 0, y: 0, width: 0, height: 0 },
        }
    }

    pub fn replace(&mut self, inner: Option<Area>)
        ensures
            final(self).spec_inner() == inner,
    {
        self.inner = inner;
    }
}

/// Which setting the operator is editing.
#[derive(Clone, Copy, Debug, PartialEq, Eq, Structural)]
pub enum InOutChangeMode {
    Input,
    Output,
    Email,
    Password,
}

/// A message box with a title and lines of text.
pub struct Alert {
    pub title: String,
    pub content: Vec<String>,
    pub known_area: KnownArea,
}

impl Alert {
    pub fn new(title: String, content: Vec<String>) -> (r: Alert)
        ensures
            r.title@ == title@,
            r.content@ == content@,
            r.known_area.spec_inner() is None,
    {
        Alert { title, content, known_area: KnownArea::new() }
    }

    pub fn add_line(self, line: String) -> (r: Alert)
        ensures
            r.title@ == self.title@,
            r.content@ == self.content@.push(line),
    {
        let mut s = self;
        s.content.push(line);
        s
    }
}

/// A one-line text field with a label and a placeholder.
pub struct Input {
    pub state: InputState,
    pub label: String,
    pub placeholder: String,
    pub known_area: KnownArea,
}

impl Input {
    /// An empty field; the label defaults to `Input` and the placeholder to
    /// `Start typing..`.
    pub fn new(label: Option<String>, placeholder: Option<String>) -> (r: Input)
        ensures
            r.state.spec_text().len() == 0,
            r.state.spec_cursor() == 0,
            r.label@ == (match label {
                Some(l) => l@,
                None => "Input"@,
            }),
            r.placeholder@ == (match placeholder {
                Some(p) => p@,
                None => "Start typing.."@,
            }),
    {
        let label = match label {
            Some(l) => l,
            None => String::from_str("Input"),
        };
        let placeholder = match placeholder {
            Some(p) => p,
            None => String::from_str("Start typing.."),
        };
        Input { state: InputState::new(String::new()), label, placeholder, known_area: KnownArea::new() }
    }

    /// The text typed, giving up the field.
    pub fn value(self) -> (r: String)
        ensures
            r@ == self.state.spec_text(),
    {
        self.state.into_string()
    }
}

} // verus!
