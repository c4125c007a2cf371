use vstd::prelude::*;

verus! {

/// A position in a source file: the file's name, a 1-based line and a 1-based column.
#[derive(Debug, Clone, PartialEq)]
pub struct Location {
    pub filename: String,
    pub rol: usize,
    pub col: usize,
}

impl Location {
    pub fn new(filename: String, rol: usize, col: usize) -> (r: Self)
        ensures
            r.filename == filename,
            r.rol == rol,
            r.col == col,
    {
        Location { filename, rol, col }
    }

    pub fn set_filename(&mut self, s: String)
        ensures
            final(self).filename == s,
            final(self).rol == old(self).rol,
            final(self).col == old(self).col,
    {
        self.filename = s;
    }

    pub fn filename(&self) -> (r: &str)
        ensures
            r@ == self.filename@,
    {
        self.filename.as_str()
    }

    pub fn rol(&self) -> (r: usize)
        ensures
            r == self.rol,
    {
        self.rol
    }

    pub fn col(&self) -> (r: usize)
        ensures
            r == self.col,
    {
        self.col
    }

    /// A copy of this location, equal to it.
    pub fn copy(&self) -> (r: Self)
        ensures
            r == *self,
    {
        Location { filename: self.filename.clone(), rol: self.rol, col: self.col }
    }
}

/// A copy of an optional location, equal to it.
pub fn copy_loc(loc: &Option<Location>) -> (r: Option<Location>)
    ensures
        r == *loc,
{
    match loc {
        Some(l) => Some(l.copy()),
        None => None,
    }
}

} // verus!
