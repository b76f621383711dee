//! A search over one text: the text and the lines found in it.
use vstd::prelude::*;
use vstd::string::*;
use vstd::utf8::*;
use crate::args::CommandArgs;
use crate::engine::{hits_of, is_selection, run, search};
use crate::lines::split_lines;

verus! {

/// Stores the results of a search and a reference to the contents that
/// were searched.
///
/// The results are always a selection of the lines of the contents: each
/// entry is a line under its own number, and the numbers rise strictly.
pub struct Search<'a> {
    contents: &'a str,
    results: Vec<(usize, &'a str)>,
}

/// What can be searched with the arguments of a command line.
pub trait IsSearch {
    /// The UTF-8 bytes of the text that is searched.
    spec fn text(&self) -> Seq<u8>;

    /// The results held: the number and the UTF-8 bytes of each line.
    spec fn hits(&self) -> Seq<(nat, Seq<u8>)>;

    /// Searches the text for the query of `args`, as its flags say. The
    /// text stays as it is, and the results of this search take the place
    /// of any held before.
    fn find(&mut self, args: &CommandArgs)
        ensures
            final(self).text() == old(self).text(),
            final(self).hits() == search(
                old(self).text(),
                encode_utf8(args.query@),
                args.options_spec(),
            ),
            is_selection(final(self).hits(), split_lines(old(self).text())),
    ;
}

impl<'a> Search<'a> {
    #[verifier::type_invariant]
    spec fn well_formed(&self) -> bool {
        is_selection(hits_of(self.results@), split_lines(self.contents.spec_bytes()))
    }

    /// Creates a new `Search` over `contents`, with no results yet.
    pub fn new(contents: &'a str) -> (new_search: Search<'a>)
        ensures
            new_search.text() == contents.spec_bytes(),
            new_search.hits() == Seq::<(nat, Seq<u8>)>::empty(),
    {
        let results: Vec<(usize, &'a str)> = Vec::new();
        assert(hits_of(results@) =~= Seq::<(nat, Seq<u8>)>::empty());
        Search { contents, results }
    }

    /// Returns the contents that are searched.
    pub fn get_contents(&self) -> (contents: &'a str)
        ensures
            contents.spec_bytes() == self.text(),
    {
        self.contents
    }

    /// Returns the raw results vector: the number of each line found,
    /// counted from 0, and the line itself, in the order of the text.
    pub fn get_results(&self) -> (results: &Vec<(usize, &'a str)>)
        ensures
            hits_of(results@) == self.hits(),
            is_selection(self.hits(), split_lines(self.text())),
    {
        proof {
            use_type_invariant(self);
        }
        &self.results
    }
}

impl<'a> IsSearch for Search<'a> {
    closed spec fn text(&self) -> Seq<u8> {
        self.contents.spec_bytes()
    }

    closed spec fn hits(&self) -> Seq<(nat, Seq<u8>)> {
        hits_of(self.results@)
    }

    fn find(&mut self, args: &CommandArgs) {
        let options = args.options();
        self.results = run(self.contents, args.query.as_str(), &options);
    }
}

} // verus!
