//! The tokens of the selector language and their models.
use vstd::prelude::*;

verus! {

/// An index into an array or into the entries of an object.
#[derive(Debug, Clone, Copy, PartialEq, Eq)]
pub struct Index(pub usize);

impl Index {
    /// Creates a new `Index`.
    pub fn new(index: usize) -> (r: Index)
        ensures
            r.0 == index,
    {
        Index(index)
    }
}

/// A range over an array or over the entries of an object: an optional
/// start and an optional end, both inclusive.
#[derive(Debug, Clone, Copy, PartialEq, Eq)]
pub struct Range(pub Option<Index>, pub Option<Index>);

/// The bound of a range as a plain optional number.
pub open spec fn bound(b: Option<Index>) -> Option<usize> {
    match b {
        Some(i) => Some(i.0),
        None => None,
    }
}

impl Range {
    /// Creates a new `Range`.
    pub fn new(start: Option<Index>, end: Option<Index>) -> (r: Range)
        ensures
            r.0 == start,
            r.1 == end,
    {
        Range(start, end)
    }

    /// The bounds of the range over a collection of `len` items: a missing
    /// start is 0, a missing end is `len - 1`.
    pub fn to_boundaries(&self, len: usize) -> (r: (usize, usize))
        requires
            len > 0,
        ensures
            r.0 == resolve_start(bound(self.0)),
            r.1 == resolve_end(bound(self.1), len as nat),
    {
        let start = match self.0 {
            Some(i) => i.0,
            None => 0,
        };
        let end = match self.1 {
            Some(i) => i.0,
            None => len - 1,
        };
        (start, end)
    }
}

/// The start of a range: 0 when absent.
pub open spec fn resolve_start(a: Option<usize>) -> nat {
    match a {
        Some(i) => i as nat,
        None => 0,
    }
}

/// The end of a range over `len` items: `len - 1` when absent.
pub open spec fn resolve_end(b: Option<usize>, len: nat) -> nat {
    match b {
        Some(i) => i as nat,
        None => (len - 1) as nat,
    }
}

/// The value that a lens compares with.
#[derive(Debug, Clone, PartialEq, Eq)]
pub enum LensValue {
    /// A JSON boolean.
    Bool(bool),
    /// JSON null.
    Null,
    /// A JSON number, an unsigned integer.
    Number(usize),
    /// A JSON string.
    String(String),
}

/// A lens: a path of keys, and the value that the element must hold there.
#[derive(Debug, PartialEq, Eq)]
pub struct Lens(pub Vec<Token>, pub Option<LensValue>);

/// A token of the selector language.
#[derive(Debug, PartialEq, Eq)]
pub enum Token {
    /// Array index selector.
    ArrayIndexSelector(Vec<Index>),
    /// Array range selector.
    ArrayRangeSelector(Range),
    /// Flatten operator.
    FlattenOperator,
    /// Group separator.
    GroupSeparator,
    /// Key selector.
    KeySelector(String),
    /// Lens selector.
    LensSelector(Vec<Lens>),
    /// Multi key selector.
    MultiKeySelector(Vec<String>),
    /// Object index selector.
    ObjectIndexSelector(Vec<Index>),
    /// Object range selector.
    ObjectRangeSelector(Range),
    /// Pipe in operator.
    PipeInOperator,
    /// Pipe out operator.
    PipeOutOperator,
    /// Truncate operator.
    TruncateOperator,
}

/// The model of a lens value.
pub enum LensValueV {
    Bool(bool),
    Null,
    Number(usize),
    Str(Seq<char>),
}

/// The model of a lens.
pub struct LensV {
    pub path: Seq<TokenV>,
    pub value: Option<LensValueV>,
}

/// The model of a token.
pub enum TokenV {
    ArrayIndex(Seq<usize>),
    ArrayRange(Option<usize>, Option<usize>),
    Flatten,
    GroupSep,
    Key(Seq<char>),
    Lens(Seq<LensV>),
    MultiKey(Seq<Seq<char>>),
    ObjectIndex(Seq<usize>),
    ObjectRange(Option<usize>, Option<usize>),
    PipeIn,
    PipeOut,
    Truncate,
}

/// The numbers of a list of indexes.
pub open spec fn index_views(v: Seq<Index>) -> Seq<usize> {
    Seq::new(v.len(), |i: int| v[i].0)
}

/// The characters of a list of strings.
pub open spec fn string_views(v: Seq<String>) -> Seq<Seq<char>> {
    Seq::new(v.len(), |i: int| v[i]@)
}

impl View for LensValue {
    type V = LensValueV;

    open spec fn view(&self) -> LensValueV {
        match self {
            LensValue::Bool(b) => LensValueV::Bool(*b),
            LensValue::Null => LensValueV::Null,
            LensValue::Number(n) => LensValueV::Number(*n),
            LensValue::String(s) => LensValueV::Str(s@),
        }
    }
}

pub open spec fn lens_value_view(v: Option<LensValue>) -> Option<LensValueV> {
    match v {
        Some(x) => Some(x@),
        None => None,
    }
}

/// The model of a token that stands in the path of a lens. A lens path
/// holds no lens; one found there is modelled without its contents.
pub open spec fn path_token_view(t: Token) -> TokenV {
    match t {
        Token::ArrayIndexSelector(v) => TokenV::ArrayIndex(index_views(v@)),
        Token::ArrayRangeSelector(r) => TokenV::ArrayRange(bound(r.0), bound(r.1)),
        Token::FlattenOperator => TokenV::Flatten,
        Token::GroupSeparator => TokenV::GroupSep,
        Token::KeySelector(k) => TokenV::Key(k@),
        Token::LensSelector(_) => TokenV::Lens(Seq::empty()),
        Token::MultiKeySelector(v) => TokenV::MultiKey(string_views(v@)),
        Token::ObjectIndexSelector(v) => TokenV::ObjectIndex(index_views(v@)),
        Token::ObjectRangeSelector(r) => TokenV::ObjectRange(bound(r.0), bound(r.1)),
        Token::PipeInOperator => TokenV::PipeIn,
        Token::PipeOutOperator => TokenV::PipeOut,
        Token::TruncateOperator => TokenV::Truncate,
    }
}

pub open spec fn path_views(v: Seq<Token>) -> Seq<TokenV> {
    Seq::new(v.len(), |i: int| path_token_view(v[i]))
}

impl View for Lens {
    type V = LensV;

    open spec fn view(&self) -> LensV {
        LensV { path: path_views(self.0@), value: lens_value_view(self.1) }
    }
}

pub open spec fn lens_views(v: Seq<Lens>) -> Seq<LensV> {
    Seq::new(v.len(), |i: int| v[i]@)
}

impl View for Token {
    type V = TokenV;

    open spec fn view(&self) -> TokenV {
        match self {
            Token::LensSelector(ls) => TokenV::Lens(lens_views(ls@)),
            _ => path_token_view(*self),
        }
    }
}

pub open spec fn token_views(v: Seq<Token>) -> Seq<TokenV> {
    Seq::new(v.len(), |i: int| v[i]@)
}

/// A copy of a list of indexes.
pub fn copy_indexes(v: &Vec<Index>) -> (r: Vec<Index>)
    ensures
        r@ == v@,
{
    let mut out: Vec<Index> = Vec::new();
    let mut i: usize = 0;
    while i < v.len()
        invariant
            i <= v.len(),
            out@ == v@.subrange(0, i as int),
        decreases v.len() - i,
    {
        out.push(v[i]);
        i = i + 1;
        assert(out@ =~= v@.subrange(0, i as int));
    }
    assert(v@.subrange(0, v.len() as int) =~= v@);
    out
}

/// A copy of a list of strings.
pub fn copy_strings(v: &Vec<String>) -> (r: Vec<String>)
    ensures
        string_views(r@) == string_views(v@),
{
    let mut out: Vec<String> = Vec::new();
    let mut i: usize = 0;
    while i < v.len()
        invariant
            i <= v.len(),
            out@.len() == i,
            forall|k: int| 0 <= k < i ==> out@[k]@ == v@[k]@,
        decreases v.len() - i,
    {
        out.push(v[i].clone());
        i = i + 1;
    }
    assert(string_views(out@) =~= string_views(v@));
    out
}

/// A copy of an optional lens value.
pub fn copy_lens_value(v: &Option<LensValue>) -> (r: Option<LensValue>)
    ensures
        lens_value_view(r) == lens_value_view(*v),
{
    match v {
        Some(LensValue::String(s)) => Some(LensValue::String(s.clone())),
        Some(LensValue::Bool(b)) => Some(LensValue::Bool(*b)),
        Some(LensValue::Null) => Some(LensValue::Null),
        Some(LensValue::Number(n)) => Some(LensValue::Number(*n)),
        None => None,
    }
}

/// A copy of a list of tokens.
pub fn copy_tokens(v: &Vec<Token>) -> (r: Vec<Token>)
    ensures
        token_views(r@) == token_views(v@),
        path_views(r@) == path_views(v@),
{
    let mut out: Vec<Token> = Vec::new();
    let mut i: usize = 0;
    while i < v.len()
        invariant
            i <= v.len(),
            out@.len() == i,
            forall|k: int| 0 <= k < i ==> out@[k]@ == v@[k]@,
            forall|k: int| 0 <= k < i ==> path_token_view(out@[k]) == path_token_view(v@[k]),
        decreases v.len() - i,
    {
        out.push(v[i].copy());
        i = i + 1;
    }
    assert(token_views(out@) =~= token_views(v@));
    assert(path_views(out@) =~= path_views(v@));
    out
}

/// A copy of a list of tokens that stand in a lens path.
fn copy_path(v: &Vec<Token>) -> (r: Vec<Token>)
    ensures
        path_views(r@) == path_views(v@),
{
    let mut out: Vec<Token> = Vec::new();
    let mut i: usize = 0;
    while i < v.len()
        invariant
            i <= v.len(),
            out@.len() == i,
            forall|k: int| 0 <= k < i ==> path_token_view(out@[k]) == path_token_view(v@[k]),
        decreases v.len() - i,
    {
        out.push(v[i].copy_in_path());
        i = i + 1;
    }
    assert(path_views(out@) =~= path_views(v@));
    out
}

impl Token {
    /// A copy of a token as it stands in a lens path.
    fn copy_in_path(&self) -> (r: Token)
        ensures
            path_token_view(r) == path_token_view(*self),
            !(self is LensSelector) ==> r@ == self@,
    {
        match self {
            Token::ArrayIndexSelector(v) => Token::ArrayIndexSelector(copy_indexes(v)),
            Token::ArrayRangeSelector(r) => Token::ArrayRangeSelector(*r),
            Token::FlattenOperator => Token::FlattenOperator,
            Token::GroupSeparator => Token::GroupSeparator,
            Token::KeySelector(k) => Token::KeySelector(k.clone()),
            Token::LensSelector(_) => Token::LensSelector(Vec::new()),
            Token::MultiKeySelector(v) => Token::MultiKeySelector(copy_strings(v)),
            Token::ObjectIndexSelector(v) => Token::ObjectIndexSelector(copy_indexes(v)),
            Token::ObjectRangeSelector(r) => Token::ObjectRangeSelector(*r),
            Token::PipeInOperator => Token::PipeInOperator,
            Token::PipeOutOperator => Token::PipeOutOperator,
            Token::TruncateOperator => Token::TruncateOperator,
        }
    }

    /// A copy of the token, equal to it in the model.
    pub fn copy(&self) -> (r: Token)
        ensures
            r@ == self@,
            path_token_view(r) == path_token_view(*self),
    {
        match self {
            Token::LensSelector(ls) => {
                let mut out: Vec<Lens> = Vec::new();
                let mut i: usize = 0;
                while i < ls.len()
                    invariant
                        i <= ls.len(),
                        out@.len() == i,
                        forall|k: int| 0 <= k < i ==> out@[k]@ == ls@[k]@,
                    decreases ls.len() - i,
                {
                    out.push(Lens(copy_path(&ls[i].0), copy_lens_value(&ls[i].1)));
                    i = i + 1;
                }
                assert(lens_views(out@) =~= lens_views(ls@));
                Token::LensSelector(out)
            },
            _ => self.copy_in_path(),
        }
    }
}

impl Lens {
    /// A copy of the lens, equal to it in the model.
    pub fn copy(&self) -> (r: Lens)
        ensures
            r@ == self@,
    {
        Lens(copy_path(&self.0), copy_lens_value(&self.1))
    }

    /// Creates a new `Lens`.
    pub fn new(tokens: &Vec<Token>, value: Option<LensValue>) -> (r: Lens)
        ensures
            r@ == (LensV { path: path_views(tokens@), value: lens_value_view(value) }),
    {
        Lens(copy_path(tokens), value)
    }

    /// The path and the value of the lens.
    pub fn get(&self) -> (r: (Vec<Token>, Option<LensValue>))
        ensures
            path_views(r.0@) == self@.path,
            lens_value_view(r.1) == self@.value,
    {
        (copy_path(&self.0), copy_lens_value(&self.1))
    }
}

} // verus!
