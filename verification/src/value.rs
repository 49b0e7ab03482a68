//! The value model: an in-memory representation of a parsed JSON document.
//!
//! A number is kept as its decimal literal text, so that values of arbitrary
//! precision survive a round trip through the document without loss.

use vstd::prelude::*;

verus! {

/// A parsed JSON document: the owned, immutable value model.
///
/// Object entries keep their source order: JSON object key order is
/// observable to the user and must survive formatting.
pub enum Json {
    Null,
    Bool(bool),
    /// The number's decimal literal, e.g. `-12.5e3`.
    Num(String),
    Str(String),
    Arr(Vec<Json>),
    Obj(Vec<(String, Json)>),
}

/// The mathematical model of a [`Json`] value: the same tree over `Seq`.
#[verifier::ext_equal]
pub enum JsonV {
    Null,
    Bool(bool),
    Num(Seq<char>),
    Str(Seq<char>),
    Arr(Seq<JsonV>),
    Obj(Seq<(Seq<char>, JsonV)>),
}

pub open spec fn json_view(j: Json) -> JsonV
    decreases j, 1int, 0int,
{
    match j {
        Json::Null => JsonV::Null,
        Json::Bool(b) => JsonV::Bool(b),
        Json::Num(s) => JsonV::Num(s@),
        Json::Str(s) => JsonV::Str(s@),
        Json::Arr(elems) => JsonV::Arr(arr_view(elems@, 0)),
        Json::Obj(entries) => JsonV::Obj(obj_view(entries@, 0)),
    }
}

/// The views of `elems[i..]`, in order.
pub open spec fn arr_view(elems: Seq<Json>, i: int) -> Seq<JsonV>
    decreases elems, 0int, elems.len() - i,
{
    if i < 0 || i >= elems.len() {
        Seq::empty()
    } else {
        seq![json_view(elems[i])] + arr_view(elems, i + 1)
    }
}

/// The views of the entries `entries[i..]`, keys included, in order.
pub open spec fn obj_view(entries: Seq<(String, Json)>, i: int) -> Seq<(Seq<char>, JsonV)>
    decreases entries, 0int, entries.len() - i,
{
    if i < 0 || i >= entries.len() {
        Seq::empty()
    } else {
        seq![(entries[i].0@, json_view(entries[i].1))] + obj_view(entries, i + 1)
    }
}

impl View for Json {
    type V = JsonV;

    open spec fn view(&self) -> JsonV {
        json_view(*self)
    }
}

impl Json {
    /// Whether this value can hold children in the tree view.
    pub fn is_container(&self) -> (r: bool)
        ensures
            r == self@.is_container(),
    {
        match self {
            Json::Arr(_) => true,
            Json::Obj(_) => true,
            _ => false,
        }
    }
}

impl JsonV {
    pub open spec fn is_container(self) -> bool {
        self is Arr || self is Obj
    }
}

proof fn lemma_arr_view_from(elems: Seq<Json>, i: int)
    requires
        0 <= i <= elems.len(),
    ensures
        arr_view(elems, i).len() == elems.len() - i,
        forall|k: int| i <= k < elems.len() ==> arr_view(elems, i)[k - i] == json_view(elems[k]),
    decreases elems.len() - i,
{
    if i < elems.len() {
        lemma_arr_view_from(elems, i + 1);
    }
}

/// The view of an array's elements is their views, pointwise.
pub proof fn lemma_arr_view(elems: Seq<Json>)
    ensures
        arr_view(elems, 0).len() == elems.len(),
        forall|k: int|
            0 <= k < elems.len() ==> #[trigger] arr_view(elems, 0)[k] == json_view(elems[k]),
{
    lemma_arr_view_from(elems, 0);
    assert forall|k: int|
        0 <= k < elems.len() implies #[trigger] arr_view(elems, 0)[k] == json_view(elems[k]) by {
        assert(arr_view(elems, 0)[k - 0] == json_view(elems[k]));
    }
}

proof fn lemma_obj_view_from(entries: Seq<(String, Json)>, i: int)
    requires
        0 <= i <= entries.len(),
    ensures
        obj_view(entries, i).len() == entries.len() - i,
        forall|k: int|
            i <= k < entries.len() ==> obj_view(entries, i)[k - i] == (
            entries[k].0@,
            json_view(entries[k].1),
            ),
    decreases entries.len() - i,
{
    if i < entries.len() {
        lemma_obj_view_from(entries, i + 1);
    }
}

/// The view of an object's entries is their keys' and values' views, pointwise.
pub proof fn lemma_obj_view(entries: Seq<(String, Json)>)
    ensures
        obj_view(entries, 0).len() == entries.len(),
        forall|k: int|
            0 <= k < entries.len() ==> #[trigger] obj_view(entries, 0)[k] == (
            entries[k].0@,
            json_view(entries[k].1),
            ),
{
    lemma_obj_view_from(entries, 0);
    assert forall|k: int|
        0 <= k < entries.len() implies #[trigger] obj_view(entries, 0)[k] == (
        entries[k].0@,
        json_view(entries[k].1),
    ) by {
        assert(obj_view(entries, 0)[k - 0] == (entries[k].0@, json_view(entries[k].1)));
    }
}

/// A deep copy of a value; the copy denotes exactly the same document.
pub fn json_clone(j: &Json) -> (r: Json)
    ensures
        r@ == j@,
    decreases *j,
{
    match j {
        Json::Null => Json::Null,
        Json::Bool(b) => Json::Bool(*b),
        Json::Num(s) => Json::Num(s.clone()),
        Json::Str(s) => Json::Str(s.clone()),
        Json::Arr(elems) => {
            let mut out: Vec<Json> = Vec::new();
            let n = elems.len();
            for k in 0..n
                invariant
                    n == elems.len(),
                    out@.len() == k,
                    forall|m: int| 0 <= m < k ==> out@[m]@ == elems@[m]@,
                    *j == Json::Arr(*elems),
            {
                proof {
                    assert(decreases_to!(*j => j->Arr_0));
                    assert(decreases_to!(*elems => elems@));
                    assert(decreases_to!(elems@ => elems@[k as int]));
                }
                let c = json_clone(&elems[k]);
                out.push(c);
            }
            proof {
                lemma_arr_view(elems@);
                lemma_arr_view(out@);
                assert(arr_view(out@, 0) =~= arr_view(elems@, 0));
            }
            Json::Arr(out)
        },
        Json::Obj(entries) => {
            let mut out: Vec<(String, Json)> = Vec::new();
            let n = entries.len();
            for k in 0..n
                invariant
                    n == entries.len(),
                    out@.len() == k,
                    forall|m: int|
                        0 <= m < k ==> out@[m].0@ == entries@[m].0@ && out@[m].1@
                            == entries@[m].1@,
                    *j == Json::Obj(*entries),
            {
                proof {
                    assert(decreases_to!(*j => j->Obj_0));
                    assert(decreases_to!(*entries => entries@));
                    assert(decreases_to!(entries@ => entries@[k as int]));
                    assert(decreases_to!(entries@[k as int] => entries@[k as int].1));
                }
                let key = entries[k].0.clone();
                let val = json_clone(&entries[k].1);
                out.push((key, val));
            }
            proof {
                lemma_obj_view(entries@);
                lemma_obj_view(out@);
                assert(obj_view(out@, 0) =~= obj_view(entries@, 0));
            }
            Json::Obj(out)
        },
    }
}

/// Structural equality of two documents: true exactly when they denote the
/// same value, key order included.
pub fn json_eq(a: &Json, b: &Json) -> (r: bool)
    ensures
        r == (a@ == b@),
    decreases *a,
{
    match (a, b) {
        (Json::Null, Json::Null) => true,
        (Json::Bool(x), Json::Bool(y)) => *x == *y,
        (Json::Num(x), Json::Num(y)) => *x == *y,
        (Json::Str(x), Json::Str(y)) => *x == *y,
        (Json::Arr(xs), Json::Arr(ys)) => {
            proof {
                lemma_arr_view(xs@);
                lemma_arr_view(ys@);
            }
            if xs.len() != ys.len() {
                assert(arr_view(xs@, 0).len() != arr_view(ys@, 0).len());
                false
            } else {
                let n = xs.len();
                let mut k: usize = 0;
                let mut same = true;
                while k < n
                    invariant
                        n == xs.len() == ys.len(),
                        0 <= k <= n,
                        same == (forall|m: int| 0 <= m < k ==> xs@[m]@ == ys@[m]@),
                        *a == Json::Arr(*xs),
                        *b == Json::Arr(*ys),
                    decreases n - k,
                {
                    proof {
                        assert(decreases_to!(*a => a->Arr_0));
                        assert(decreases_to!(*xs => xs@));
                        assert(decreases_to!(xs@ => xs@[k as int]));
                    }
                    if !json_eq(&xs[k], &ys[k]) {
                        same = false;
                    }
                    k += 1;
                }
                proof {
                    lemma_arr_view(xs@);
                    lemma_arr_view(ys@);
                    if same {
                        assert(arr_view(xs@, 0) =~= arr_view(ys@, 0));
                    } else {
                        let m = choose|m: int| 0 <= m < n && xs@[m]@ != ys@[m]@;
                        assert(arr_view(xs@, 0)[m] != arr_view(ys@, 0)[m]);
                    }
                }
                same
            }
        },
        (Json::Obj(xs), Json::Obj(ys)) => {
            proof {
                lemma_obj_view(xs@);
                lemma_obj_view(ys@);
            }
            if xs.len() != ys.len() {
                assert(obj_view(xs@, 0).len() != obj_view(ys@, 0).len());
                false
            } else {
                let n = xs.len();
                let mut k: usize = 0;
                let mut same = true;
                while k < n
                    invariant
                        n == xs.len() == ys.len(),
                        0 <= k <= n,
                        same == (forall|m: int|
                            0 <= m < k ==> xs@[m].0@ == ys@[m].0@ && xs@[m].1@ == ys@[m].1@),
                        *a == Json::Obj(*xs),
                        *b == Json::Obj(*ys),
                    decreases n - k,
                {
                    proof {
                        assert(decreases_to!(*a => a->Obj_0));
                        assert(decreases_to!(*xs => xs@));
                        assert(decreases_to!(xs@ => xs@[k as int]));
                        assert(decreases_to!(xs@[k as int] => xs@[k as int].1));
                    }
                    if !(xs[k].0 == ys[k].0) {
                        same = false;
                    } else if !json_eq(&xs[k].1, &ys[k].1) {
                        same = false;
                    }
                    k += 1;
                }
                proof {
                    lemma_obj_view(xs@);
                    lemma_obj_view(ys@);
                    if same {
                        assert(obj_view(xs@, 0) =~= obj_view(ys@, 0));
                    } else {
                        let m = choose|m: int|
                            0 <= m < n && !(xs@[m].0@ == ys@[m].0@ && xs@[m].1@ == ys@[m].1@);
                        assert(obj_view(xs@, 0)[m] != obj_view(ys@, 0)[m]);
                    }
                }
                same
            }
        },
        _ => {
            false
        },
    }
}

} // verus!
