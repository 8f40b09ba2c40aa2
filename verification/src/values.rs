//! Tagged scalar values and ordered value sets attached to span instances
//! and events.

use vstd::prelude::*;
use vstd::string::*;

use crate::util::{
    csv_escape, csv_format_single, decimal_digits, i64_to_string, join_with, signed_decimal_digits,
    u64_to_string,
};

verus! {

/// A tagged scalar attached to a key.
///
/// A floating-point value cannot be carried here as a number; it is carried
/// as its already-rendered decimal text, produced where the wire bits were
/// decoded.
#[derive(Clone, Debug)]
pub enum Value {
    /// The rendered decimal text of a floating-point value.
    Float(String),
    Signed(i64),
    Unsigned(u64),
    Str(String),
    Bool(bool),
}

/// The mathematical shape of a value.
pub ghost enum ValueView {
    Float(Seq<char>),
    Signed(i64),
    Unsigned(u64),
    Str(Seq<char>),
    Bool(bool),
}

impl View for Value {
    type V = ValueView;

    open spec fn view(&self) -> ValueView {
        match self {
            Value::Float(t) => ValueView::Float(t@),
            Value::Signed(x) => ValueView::Signed(*x),
            Value::Unsigned(x) => ValueView::Unsigned(*x),
            Value::Str(s) => ValueView::Str(s@),
            Value::Bool(b) => ValueView::Bool(*b),
        }
    }
}

/// The textual form of a value: floats by their rendered text, integers in
/// base 10, strings in double quotes, booleans as `On` / `Off`.
pub open spec fn value_text(v: ValueView) -> Seq<char> {
    match v {
        ValueView::Float(t) => t,
        ValueView::Signed(x) => signed_decimal_digits(x as int),
        ValueView::Unsigned(x) => decimal_digits(x as nat),
        ValueView::Str(s) => seq!['"'] + s + seq!['"'],
        ValueView::Bool(b) => if b {
            "On"@
        } else {
            "Off"@
        },
    }
}

impl Value {
    /// Renders the value as it appears in rows and operator lines.
    pub fn to_text(&self) -> (r: String)
        ensures
            r@ == value_text(self@),
    {
        match self {
            Value::Float(t) => t.clone(),
            Value::Signed(x) => i64_to_string(*x),
            Value::Unsigned(x) => u64_to_string(*x),
            Value::Str(s) => {
                let mut out = String::from_str("\"");
                out.append(s.as_str());
                out.append("\"");
                proof {
                    reveal_strlit("\"");
                    assert("\""@ =~= seq!['"']);
                }
                out
            },
            Value::Bool(b) => {
                if *b {
                    String::from_str("On")
                } else {
                    String::from_str("Off")
                }
            },
        }
    }

    /// A deep copy whose view equals this one's.
    pub fn duplicate(&self) -> (r: Value)
        ensures
            r@ == self@,
    {
        match self {
            Value::Float(t) => Value::Float(t.clone()),
            Value::Signed(x) => Value::Signed(*x),
            Value::Unsigned(x) => Value::Unsigned(*x),
            Value::Str(s) => Value::Str(s.clone()),
            Value::Bool(b) => Value::Bool(*b),
        }
    }
}

/// An ordered sequence of `(key, value)` pairs. Duplicate keys are retained
/// and insertion order is meaningful.
#[derive(Debug)]
pub struct ValueSet {
    data: Vec<(String, Value)>,
}

/// The view of a set of pairs of exec values.
pub open spec fn pairs_view(data: Seq<(String, Value)>) -> Seq<(Seq<char>, ValueView)> {
    data.map_values(|kv: (String, Value)| (kv.0@, kv.1@))
}

impl View for ValueSet {
    type V = Seq<(Seq<char>, ValueView)>;

    closed spec fn view(&self) -> Seq<(Seq<char>, ValueView)> {
        pairs_view(self.data@)
    }
}

/// Keys of an inherited value set: each parent key prefixed with the parent
/// span's name and `::`.
pub open spec fn inherited(parent: Seq<char>, vs: Seq<(Seq<char>, ValueView)>) -> Seq<
    (Seq<char>, ValueView),
> {
    vs.map_values(|kv: (Seq<char>, ValueView)| (parent + "::"@ + kv.0, kv.1))
}

/// The serialized form of one `(key, value)` pair: `key = value`.
pub open spec fn pair_text(kv: (Seq<char>, ValueView)) -> Seq<char> {
    kv.0 + " = "@ + value_text(kv.1)
}

/// The serialized form of a value set: the `key = value` pairs joined with
/// commas. The result is embedded in rows as it stands; quoting happens
/// only where a row embeds it as a space-separated field.
pub open spec fn value_set_text(vs: Seq<(Seq<char>, ValueView)>) -> Seq<char> {
    join_with(vs.map_values(|kv: (Seq<char>, ValueView)| pair_text(kv)), ',')
}

impl ValueSet {
    /// The empty value set.
    pub fn new() -> (r: ValueSet)
        ensures
            r@ == Seq::<(Seq<char>, ValueView)>::empty(),
    {
        let r = ValueSet { data: Vec::new() };
        proof {
            assert(r@ =~= Seq::<(Seq<char>, ValueView)>::empty());
        }
        r
    }

    /// Wraps a vector of pairs as a value set, in order.
    pub fn from_pairs(data: Vec<(String, Value)>) -> (r: ValueSet)
        ensures
            r@ == pairs_view(data@),
    {
        ValueSet { data }
    }

    /// Appends the pairs of a parent instance, each key prefixed with the
    /// parent span's name and `::`.
    pub fn inherit_from(&mut self, parent: &str, iter: Vec<(String, Value)>)
        ensures
            final(self)@ == old(self)@ + inherited(parent@, pairs_view(iter@)),
    {
        let ghost orig = self@;
        let n = iter.len();
        let mut i: usize = 0;
        while i < n
            invariant
                i <= n,
                n == iter@.len(),
                self@ == orig + inherited(parent@, pairs_view(iter@.take(i as int))),
            decreases n - i,
        {
            let (k, v) = &iter[i];
            let mut key = parent.to_owned();
            key.append("::");
            key.append(k.as_str());
            let dup = v.duplicate();
            let ghost gkey = key@;
            let ghost gdup = dup@;
            let ghost pre = self.data@;
            self.data.push((key, dup));
            proof {
                assert(self.data@ == pre.push(self.data@[pre.len() as int]));
                assert(self.data@[pre.len() as int].0@ == gkey);
                assert(self.data@[pre.len() as int].1@ == gdup);
                assert(gkey == parent@ + "::"@ + iter@[i as int].0@);
                assert(gdup == iter@[i as int].1@);
                assert(pairs_view(self.data@) =~= pairs_view(pre).push((gkey, gdup)));
                assert(iter@.take(i as int + 1).drop_last() =~= iter@.take(i as int));
                assert(pairs_view(iter@.take(i as int + 1)) =~= pairs_view(
                    iter@.take(i as int),
                ).push((iter@[i as int].0@, iter@[i as int].1@)));
                assert(inherited(parent@, pairs_view(iter@.take(i as int + 1))) =~= inherited(
                    parent@,
                    pairs_view(iter@.take(i as int)),
                ).push((gkey, gdup)));
                assert(self@ =~~= orig + inherited(parent@, pairs_view(iter@.take(i as int + 1))));
            }
            i += 1;
        }
        proof {
            assert(iter@.take(n as int) =~= iter@);
        }
    }

    /// Appends further pairs at the end, in order.
    pub fn extend(&mut self, iter: Vec<(String, Value)>)
        ensures
            final(self)@ == old(self)@ + pairs_view(iter@),
    {
        let ghost orig = self@;
        let n = iter.len();
        let mut i: usize = 0;
        while i < n
            invariant
                i <= n,
                n == iter@.len(),
                self@ == orig + pairs_view(iter@.take(i as int)),
            decreases n - i,
        {
            let (k, v) = &iter[i];
            let kk = k.clone();
            let dup = v.duplicate();
            let ghost gk = kk@;
            let ghost gd = dup@;
            let ghost pre = self.data@;
            self.data.push((kk, dup));
            proof {
                assert(self.data@[pre.len() as int].0@ == gk);
                assert(self.data@[pre.len() as int].1@ == gd);
                assert(pairs_view(self.data@) =~= pairs_view(pre).push((gk, gd)));
                assert(pairs_view(iter@.take(i as int + 1)) =~= pairs_view(
                    iter@.take(i as int),
                ).push((iter@[i as int].0@, iter@[i as int].1@)));
                assert(self@ =~~= orig + pairs_view(iter@.take(i as int + 1)));
            }
            i += 1;
        }
        proof {
            assert(iter@.take(n as int) =~= iter@);
        }
    }

    /// Serializes the value set as comma-separated `key = value` fields.
    pub fn to_string(&self) -> (r: String)
        ensures
            r@ == value_set_text(self@),
    {
        let n = self.data.len();
        let mut out = String::new();
        let mut i: usize = 0;
        while i < n
            invariant
                i <= n,
                n == self.data@.len(),
                out@ == value_set_text(self@.take(i as int)),
            decreases n - i,
        {
            if i > 0 {
                out.append(",");
                proof {
                    reveal_strlit(",");
                    assert(","@ =~= seq![',']);
                }
            }
            let (k, v) = &self.data[i];
            let mut pair = k.clone();
            pair.append(" = ");
            let vt = v.to_text();
            pair.append(vt.as_str());
            out.append(pair.as_str());
            proof {
                assert(pair@ == pair_text(self@[i as int]));
                let mapped = |kv: (Seq<char>, ValueView)| pair_text(kv);
                assert(self@.take(i as int + 1).map_values(mapped).drop_last() =~= self@.take(
                    i as int,
                ).map_values(mapped));
                assert(self@.take(i as int + 1).map_values(mapped).last() == pair_text(
                    self@[i as int],
                ));
                assert(out@ =~= value_set_text(self@.take(i as int + 1)));
            }
            i += 1;
        }
        proof {
            assert(self@.take(n as int) =~= self@);
        }
        out
    }

    /// Hands the pairs out as a vector, in order.
    pub fn into_iter(self) -> (r: Vec<(String, Value)>)
        ensures
            pairs_view(r@) == self@,
    {
        self.data
    }

    /// The number of pairs.
    pub fn len(&self) -> (r: usize)
        ensures
            r == self@.len(),
    {
        self.data.len()
    }

    /// A deep copy whose view equals this one's.
    pub fn duplicate(&self) -> (r: ValueSet)
        ensures
            r@ == self@,
    {
        let n = self.data.len();
        let mut data: Vec<(String, Value)> = Vec::new();
        let mut i: usize = 0;
        while i < n
            invariant
                i <= n,
                n == self.data@.len(),
                pairs_view(data@) == self@.take(i as int),
            decreases n - i,
        {
            let (k, v) = &self.data[i];
            let kk = k.clone();
            let dup = v.duplicate();
            let ghost gk = kk@;
            let ghost gd = dup@;
            let ghost pre = data@;
            data.push((kk, dup));
            proof {
                assert(data@[pre.len() as int].0@ == gk);
                assert(data@[pre.len() as int].1@ == gd);
                assert(pairs_view(data@) =~= pairs_view(pre).push((gk, gd)));
                assert((gk, gd) == self@[i as int]);
                assert(self@.take(i as int + 1) =~= self@.take(i as int).push(self@[i as int]));
                assert(pairs_view(data@) =~~= self@.take(i as int + 1));
            }
            i += 1;
        }
        proof {
            assert(self@.take(n as int) =~= self@);
        }
        ValueSet { data }
    }
}

/// Joins the given fields into one comma-separated row, quoting each field
/// by the comma rule.
pub fn csv_format(cols: Vec<String>) -> (r: String)
    ensures
        r@ == join_with(
            cols@.map_values(|c: String| csv_escape(c@, ',')),
            ',',
        ),
{
    let n = cols.len();
    let mut out = String::new();
    let ghost mapped = |c: String| csv_escape(c@, ',');
    let mut i: usize = 0;
    while i < n
        invariant
            i <= n,
            n == cols@.len(),
            mapped == (|c: String| csv_escape(c@, ',')),
            out@ == join_with(cols@.take(i as int).map_values(mapped), ','),
        decreases n - i,
    {
        if i > 0 {
            out.append(",");
            proof {
                reveal_strlit(",");
                assert(","@ =~= seq![',']);
            }
        }
        let field = csv_format_single(cols[i].as_str(), ',');
        out.append(field.as_str());
        proof {
            assert(cols@.take(i as int + 1).map_values(mapped).drop_last() =~= cols@.take(
                i as int,
            ).map_values(mapped));
            assert(cols@.take(i as int + 1).map_values(mapped).last() == csv_escape(
                cols@[i as int]@,
                ',',
            ));
            assert(out@ =~= join_with(cols@.take(i as int + 1).map_values(mapped), ','));
        }
        i += 1;
    }
    proof {
        assert(cols@.take(n as int) =~= cols@);
    }
    out
}

} // verus!

