//! String building utilities: decimal rendering and joining.
use vstd::prelude::*;
use vstd::string::StringExecFns;

verus! {

/// The character for one decimal digit value.
pub open spec fn spec_digit_char(d: int) -> char {
    if d == 0 {
        '0'
    } else if d == 1 {
        '1'
    } else if d == 2 {
        '2'
    } else if d == 3 {
        '3'
    } else if d == 4 {
        '4'
    } else if d == 5 {
        '5'
    } else if d == 6 {
        '6'
    } else if d == 7 {
        '7'
    } else if d == 8 {
        '8'
    } else {
        '9'
    }
}

/// The decimal text of a natural number.
pub open spec fn spec_udec(n: nat) -> Seq<char>
    decreases n,
{
    if n < 10 {
        seq![spec_digit_char(n as int)]
    } else {
        spec_udec(n / 10) + seq![spec_digit_char((n % 10) as int)]
    }
}

/// The decimal text of an integer, with a leading minus sign if negative.
pub open spec fn spec_idec(n: int) -> Seq<char> {
    if n < 0 {
        seq!['-'] + spec_udec((-n) as nat)
    } else {
        spec_udec(n as nat)
    }
}

/// The one-character string for a decimal digit value.
pub fn digit_str(d: u8) -> (r: &'static str)
    requires
        d < 10,
    ensures
        r@ == seq![spec_digit_char(d as int)],
{
    proof {
        reveal_strlit("0");
        reveal_strlit("1");
        reveal_strlit("2");
        reveal_strlit("3");
        reveal_strlit("4");
        reveal_strlit("5");
        reveal_strlit("6");
        reveal_strlit("7");
        reveal_strlit("8");
        reveal_strlit("9");
    }
    let r = match d {
        0 => "0",
        1 => "1",
        2 => "2",
        3 => "3",
        4 => "4",
        5 => "5",
        6 => "6",
        7 => "7",
        8 => "8",
        _ => "9",
    };
    proof {
        assert(r@ =~= seq![spec_digit_char(d as int)]);
    }
    r
}

/// Renders an unsigned number as decimal text.
pub fn u32_to_string(n: u32) -> (r: String)
    ensures
        r@ == spec_udec(n as nat),
    decreases n,
{
    if n < 10 {
        let r = String::from_str(digit_str(n as u8));
        proof {
            assert(r@ =~= spec_udec(n as nat));
        }
        r
    } else {
        let mut r = u32_to_string(n / 10);
        r.append(digit_str((n % 10) as u8));
        proof {
            assert(r@ =~= spec_udec(n as nat));
        }
        r
    }
}

/// Renders a signed number as decimal text with an optional minus sign.
pub fn i32_to_string(n: i32) -> (r: String)
    ensures
        r@ == spec_idec(n as int),
{
    if n >= 0 {
        u32_to_string(n as u32)
    } else {
        let mag: u32 = (-(n as i64)) as u32;
        let mut r = String::from_str("-");
        r.append(u32_to_string(mag).as_str());
        proof {
            reveal_strlit("-");
            assert(r@ =~= spec_idec(n as int));
        }
        r
    }
}

/// The text of a sequence of pieces, concatenated in order.
pub open spec fn spec_concat(ts: Seq<Seq<char>>) -> Seq<char>
    decreases ts.len(),
{
    if ts.len() == 0 {
        Seq::empty()
    } else {
        spec_concat(ts.drop_last()) + ts.last()
    }
}

/// The text of a sequence of pieces joined by a delimiter.
pub open spec fn spec_join(ts: Seq<Seq<char>>, d: Seq<char>) -> Seq<char>
    decreases ts.len(),
{
    if ts.len() == 0 {
        Seq::empty()
    } else if ts.len() == 1 {
        ts[0]
    } else {
        spec_join(ts.drop_last(), d) + d + ts.last()
    }
}

/// A value with a text form.
pub trait AsText {
    /// The text the value renders to.
    spec fn text(&self) -> Seq<char>;

    /// Renders the value.
    fn render(&self) -> (r: String)
        ensures
            r@ == self.text(),
    ;
}

impl AsText for String {
    open spec fn text(&self) -> Seq<char> {
        self@
    }

    fn render(&self) -> (r: String) {
        self.clone()
    }
}

impl<'a> AsText for &'a str {
    open spec fn text(&self) -> Seq<char> {
        self@
    }

    fn render(&self) -> (r: String) {
        (*self).to_owned()
    }
}

/// The texts of a collection's elements, in order.
pub open spec fn texts_of<V: AsText>(vs: Seq<V>) -> Seq<Seq<char>> {
    vs.map_values(|v: V| v.text())
}

/// A collection whose elements can be run together into one string.
pub trait Concatable {
    /// The texts of the elements, in order.
    spec fn texts(&self) -> Seq<Seq<char>>;

    /// Runs the elements' texts together.
    fn concat2(&self) -> (r: String)
        ensures
            r@ == spec_concat(self.texts()),
    ;

    /// Joins the elements' texts with a delimiter.
    fn join2(&self, delim: &str) -> (r: String)
        ensures
            r@ == spec_join(self.texts(), delim@),
    ;
}

impl<V: AsText> Concatable for [V] {
    open spec fn texts(&self) -> Seq<Seq<char>> {
        texts_of(self@)
    }

    fn concat2(&self) -> (r: String) {
        let mut buf = String::new();
        let mut i: usize = 0;
        while i < self.len()
            invariant
                0 <= i <= self@.len(),
                buf@ == spec_concat(self.texts().take(i as int)),
            decreases self@.len() - i,
        {
            let piece = self[i].render();
            buf.append(piece.as_str());
            i = i + 1;
            proof {
                assert(self.texts().take(i as int).drop_last() =~= self.texts().take(i - 1));
                assert(self.texts().take(i as int).last() == self@[i - 1].text());
            }
        }
        proof {
            assert(self.texts().take(self@.len() as int) =~= self.texts());
        }
        buf
    }

    fn join2(&self, delim: &str) -> (r: String) {
        let mut buf = String::new();
        let mut first = true;
        let mut i: usize = 0;
        while i < self.len()
            invariant
                0 <= i <= self@.len(),
                first == (i == 0),
                buf@ == spec_join(self.texts().take(i as int), delim@),
            decreases self@.len() - i,
        {
            if first {
                first = false;
            } else {
                buf.append(delim);
            }
            let piece = self[i].render();
            buf.append(piece.as_str());
            i = i + 1;
            proof {
                assert(self.texts().take(i as int).drop_last() =~= self.texts().take(i - 1));
                assert(self.texts().take(i as int).last() == self@[i - 1].text());
                if i == 1 {
                    assert(buf@ =~= spec_join(self.texts().take(i as int), delim@));
                }
            }
        }
        proof {
            assert(self.texts().take(self@.len() as int) =~= self.texts());
        }
        buf
    }
}

/// What `concat_with_map` and `join_with_map` promise: some sequence of
/// pieces, each a possible output of the mapping function on the matching
/// element, makes up the result.
pub open spec fn mapped_pieces<V, F: Fn(&V) -> String>(
    f: F,
    vs: Seq<V>,
    pieces: Seq<Seq<char>>,
) -> bool {
    &&& pieces.len() == vs.len()
    &&& forall|i: int|
        0 <= i < vs.len() ==> exists|s: String|
            (#[trigger] s@) == (#[trigger] pieces[i]) && call_ensures(f, (&vs[i],), s)
}

/// A collection whose elements can be rendered by a caller-given function
/// and run together into one string.
pub trait ConcatableWithMap<V, F: Fn(&V) -> String> {
    /// The element views the contracts speak of.
    spec fn elems(&self) -> Seq<V>;

    /// Runs the rendered elements together.
    fn concat_with_map(&self, f: F) -> (r: String)
        requires
            forall|v: &V| #[trigger] call_requires(f, (v,)),
        ensures
            exists|pieces: Seq<Seq<char>>|
                #[trigger] mapped_pieces(f, self.elems(), pieces) && r@ == spec_concat(pieces),
    ;

    /// Joins the rendered elements with a delimiter.
    fn join_with_map(&self, delim: &str, f: F) -> (r: String)
        requires
            forall|v: &V| #[trigger] call_requires(f, (v,)),
        ensures
            exists|pieces: Seq<Seq<char>>|
                #[trigger] mapped_pieces(f, self.elems(), pieces) && r@ == spec_join(
                    pieces,
                    delim@,
                ),
    ;
}

impl<V, F: Fn(&V) -> String> ConcatableWithMap<V, F> for [V] {
    open spec fn elems(&self) -> Seq<V> {
        self@
    }

    fn concat_with_map(&self, f: F) -> (r: String) {
        let mut buf = String::new();
        let ghost mut pieces: Seq<Seq<char>> = Seq::empty();
        let mut i: usize = 0;
        while i < self.len()
            invariant
                0 <= i <= self@.len(),
                forall|v: &V| #[trigger] call_requires(f, (v,)),
                pieces.len() == i,
                forall|j: int|
                    0 <= j < i ==> exists|s: String|
                        (#[trigger] s@) == (#[trigger] pieces[j]) && call_ensures(f, (&self@[j],), s),
                buf@ == spec_concat(pieces),
            decreases self@.len() - i,
        {
            let piece = f(&self[i]);
            buf.append(piece.as_str());
            proof {
                let prev_pieces = pieces;
                pieces = pieces.push(piece@);
                assert(pieces.drop_last() =~= prev_pieces);
                assert(pieces.last() == piece@);
                assert(call_ensures(f, (&self@[i as int],), piece));
            }
            i = i + 1;
        }
        proof {
            assert(<[V] as ConcatableWithMap<V, F>>::elems(self) =~= self@);
            assert(mapped_pieces(f, self@, pieces));
        }
        buf
    }

    fn join_with_map(&self, delim: &str, f: F) -> (r: String) {
        let mut buf = String::new();
        let ghost mut pieces: Seq<Seq<char>> = Seq::empty();
        let mut first = true;
        let mut i: usize = 0;
        while i < self.len()
            invariant
                0 <= i <= self@.len(),
                first == (i == 0),
                forall|v: &V| #[trigger] call_requires(f, (v,)),
                pieces.len() == i,
                forall|j: int|
                    0 <= j < i ==> exists|s: String|
                        (#[trigger] s@) == (#[trigger] pieces[j]) && call_ensures(f, (&self@[j],), s),
                buf@ == spec_join(pieces, delim@),
            decreases self@.len() - i,
        {
            if first {
                first = false;
            } else {
                buf.append(delim);
            }
            let piece = f(&self[i]);
            buf.append(piece.as_str());
            proof {
                let prev_pieces = pieces;
                pieces = pieces.push(piece@);
                assert(pieces.drop_last() =~= prev_pieces);
                assert(pieces.last() == piece@);
                assert(call_ensures(f, (&self@[i as int],), piece));
                if i == 0 {
                    assert(buf@ =~= spec_join(pieces, delim@));
                }
            }
            i = i + 1;
        }
        proof {
            assert(<[V] as ConcatableWithMap<V, F>>::elems(self) =~= self@);
            assert(mapped_pieces(f, self@, pieces));
        }
        buf
    }
}

/// Joins the elements' texts with a delimiter.
pub fn join<V: AsText>(strs: &[V], delimiter: &str) -> (r: String)
    ensures
        r@ == spec_join(texts_of(strs@), delimiter@),
{
    strs.join2(delimiter)
}

/// Joins the rendered elements with a delimiter.
pub fn join_with_map<V, F: Fn(&V) -> String>(strs: &[V], delimiter: &str, f: F) -> (r: String)
    requires
        forall|v: &V| #[trigger] call_requires(f, (v,)),
    ensures
        exists|pieces: Seq<Seq<char>>|
            #[trigger] mapped_pieces(f, strs@, pieces) && r@ == spec_join(pieces, delimiter@),
{
    strs.join_with_map(delimiter, f)
}

} // verus!
