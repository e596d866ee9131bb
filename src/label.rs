use vstd::prelude::*;

verus! {

/// The labels that name identifiers. A label is only ever displayed,
/// copied and compared, so a label type says exactly that.
pub trait Label: Sized {
    /// The characters the label displays as.
    spec fn text(&self) -> Seq<char>;

    /// An exact copy of the label.
    fn duplicate(&self) -> (r: Self)
        ensures
            r == *self,
    ;

    /// Whether two labels display the same.
    fn same_text(&self, other: &Self) -> (r: bool)
        ensures
            r == (self.text() == other.text()),
    ;

    /// The label as an owned string.
    fn label_string(&self) -> (r: String)
        ensures
            r@ == self.text(),
    ;
}

impl Label for String {
    open spec fn text(&self) -> Seq<char> {
        self@
    }

    fn duplicate(&self) -> (r: Self) {
        self.clone()
    }

    fn same_text(&self, other: &Self) -> (r: bool) {
        *self == *other
    }

    fn label_string(&self) -> (r: String) {
        self.clone()
    }
}

impl<'a> Label for &'a str {
    open spec fn text(&self) -> Seq<char> {
        (*self)@
    }

    fn duplicate(&self) -> (r: Self) {
        *self
    }

    fn same_text(&self, other: &Self) -> (r: bool) {
        let a = String::from_str(*self);
        let b = String::from_str(*other);
        a == b
    }

    fn label_string(&self) -> (r: String) {
        String::from_str(*self)
    }
}

impl Label for () {
    open spec fn text(&self) -> Seq<char> {
        Seq::empty()
    }

    fn duplicate(&self) -> (r: Self) {
        ()
    }

    fn same_text(&self, other: &Self) -> (r: bool) {
        true
    }

    fn label_string(&self) -> (r: String) {
        String::new()
    }
}

} // verus!
