//! What an argument accepts, and what it was given.

use std::path::PathBuf;
use vstd::prelude::*;

use crate::text::texts;

verus! {

/// The kind of data an argument accepts after its call.
#[derive(Debug, Clone, Copy, PartialEq, Eq, Structural)]
pub enum Input {
    /// No data; anything given is discarded. Binds to [`Data::Nothing`].
    Nothing,
    /// One token of text, empty when none is given. Binds to [`Data::Text`].
    Text,
    /// One token taken as a path, empty when none is given. Binds to
    /// [`Data::Path`].
    Path,
    /// Any number of tokens, each taken as a path. Binds to [`Data::Paths`].
    Paths,
}

impl Input {
    /// The placeholder shown for this kind in a help line. A kind that shows
    /// one ends it with a space, so that placeholders can be strung together.
    pub open spec fn placeholder_text(self) -> Seq<char> {
        match self {
            Input::Nothing => Seq::<char>::empty(),
            Input::Text => "[text] "@,
            Input::Path => "[path] "@,
            Input::Paths => "[paths] "@,
        }
    }

    /// The placeholder shown for this kind in a help line.
    pub fn placeholder(&self) -> (s: &'static str)
        ensures
            s@ == self.placeholder_text(),
    {
        match self {
            Input::Nothing => {
                proof {
                    reveal_strlit("");
                }
                ""
            },
            Input::Text => "[text] ",
            Input::Path => "[path] ",
            Input::Paths => "[paths] ",
        }
    }
}

/// `std::path::PathBuf`, carried through as it is: nothing here looks inside
/// a path.
#[verifier::external_type_specification]
#[verifier::external_body]
pub struct ExPathBuf(PathBuf);

/// The path that `PathBuf::from` makes of a `String` that spells `text`.
pub uninterp spec fn path_of(text: Seq<char>) -> PathBuf;

/// `PathBuf::from` on a `String`: the path is a function of the characters
/// of the string alone. Nothing is looked up on disk.
#[verifier::external_body]
fn path_from(text: String) -> (p: PathBuf)
    ensures
        p == path_of(text@),
{
    PathBuf::from(text)
}

/// Cloning a `PathBuf` gives an equal path.
pub assume_specification[ <PathBuf as Clone>::clone ](p: &PathBuf) -> (r: PathBuf)
    ensures
        r == *p,
;

/// The data bound to an argument by a parse, one variant per [`Input`].
#[derive(Debug, PartialEq)]
pub enum Data {
    /// Nothing, from [`Input::Nothing`]
    Nothing,
    /// Text, from [`Input::Text`]; empty when the user gave none
    Text(String),
    /// A path, from [`Input::Path`]; empty when the user gave none. The path
    /// is not checked to exist.
    Path(PathBuf),
    /// Paths, from [`Input::Paths`], in the order given; possibly none
    Paths(Vec<PathBuf>),
}

/// The mathematical value of a [`Data`].
pub enum DataView {
    Nothing,
    Text(Seq<char>),
    Path(PathBuf),
    Paths(Seq<PathBuf>),
}

impl View for Data {
    type V = DataView;

    open spec fn view(&self) -> DataView {
        match self {
            Data::Nothing => DataView::Nothing,
            Data::Text(text) => DataView::Text(text@),
            Data::Path(path) => DataView::Path(*path),
            Data::Paths(paths) => DataView::Paths(paths@),
        }
    }
}

/// The first of `tokens`, or the empty text when there is none.
pub open spec fn first_or_empty(tokens: Seq<Seq<char>>) -> Seq<char> {
    if tokens.len() > 0 {
        tokens[0]
    } else {
        Seq::<char>::empty()
    }
}

/// What an argument of kind `input` binds when it was given `tokens`.
pub open spec fn bind(input: Input, tokens: Seq<Seq<char>>) -> DataView {
    match input {
        Input::Nothing => DataView::Nothing,
        Input::Text => DataView::Text(first_or_empty(tokens)),
        Input::Path => DataView::Path(path_of(first_or_empty(tokens))),
        Input::Paths => DataView::Paths(tokens.map_values(|t: Seq<char>| path_of(t))),
    }
}

/// Whether `data` is of the variant that an argument of kind `input` binds.
pub open spec fn fits(input: Input, data: DataView) -> bool {
    match input {
        Input::Nothing => data is Nothing,
        Input::Text => data is Text,
        Input::Path => data is Path,
        Input::Paths => data is Paths,
    }
}

/// Whatever the tokens, an argument binds data of the variant of its kind;
/// text and a path are those of the first token, and there are as many paths
/// as tokens.
pub proof fn lemma_bind_fits(input: Input, tokens: Seq<Seq<char>>)
    ensures
        fits(input, bind(input, tokens)),
        tokens.len() > 0 ==> bind(Input::Text, tokens) == DataView::Text(tokens[0]),
        tokens.len() > 0 ==> bind(Input::Path, tokens) == DataView::Path(path_of(tokens[0])),
        bind(Input::Paths, tokens)->Paths_0.len() == tokens.len(),
{
}

impl Clone for Data {
    fn clone(&self) -> (r: Data)
        ensures
            r@ == self@,
    {
        match self {
            Data::Nothing => Data::Nothing,
            Data::Text(text) => Data::Text(text.clone()),
            Data::Path(path) => Data::Path(path.clone()),
            Data::Paths(paths) => {
                let mut copy: Vec<PathBuf> = Vec::new();
                let mut i: usize = 0;
                while i < paths.len()
                    invariant
                        i <= paths.len(),
                        copy@ == paths@.take(i as int),
                    decreases paths.len() - i,
                {
                    copy.push(paths[i].clone());
                    i += 1;
                }
                assert(copy@ =~= paths@);
                Data::Paths(copy)
            },
        }
    }
}

impl Data {
    /// Binds the tokens `data` according to `input`. Binding is purely
    /// syntactic: tokens beyond what the kind takes are dropped, and a missing
    /// token binds as empty.
    pub fn new(input: Input, data: Vec<String>) -> (r: Data)
        ensures
            r@ == bind(input, texts(data@)),
    {
        match input {
            Input::Nothing => Data::Nothing,
            Input::Text => {
                if data.len() > 0 {
                    Data::Text(data[0].clone())
                } else {
                    Data::Text(String::new())
                }
            },
            Input::Path => {
                if data.len() > 0 {
                    Data::Path(path_from(data[0].clone()))
                } else {
                    Data::Path(path_from(String::new()))
                }
            },
            Input::Paths => {
                let mut paths: Vec<PathBuf> = Vec::new();
                let mut i: usize = 0;
                while i < data.len()
                    invariant
                        i <= data.len(),
                        paths@.len() == i,
                        forall|k: int| 0 <= k < i ==> paths@[k] == path_of(#[trigger] data@[k]@),
                    decreases data.len() - i,
                {
                    paths.push(path_from(data[i].clone()));
                    i += 1;
                }
                assert(paths@ =~= texts(data@).map_values(|t: Seq<char>| path_of(t)));
                Data::Paths(paths)
            },
        }
    }
}

} // verus!
