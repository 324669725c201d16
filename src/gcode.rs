use vstd::prelude::*;

use crate::mnemonic::{spec_letter, Mnemonic};
use crate::{ArgOrComment, Arg, ArgV, GCode, GCodeV, ItemV, KeyValue, decimal_opt_view, items_view};

verus! {

/// The model of a key/value argument.
pub open spec fn kv_view(kv: KeyValue) -> (char, Option<Seq<u8>>) {
    (kv.0, decimal_opt_view(kv.1))
}

/// The arguments and comments of a command; empty when it has none.
pub open spec fn gcode_items(g: GCodeV) -> Seq<ItemV> {
    match g.items {
        Some(v) => v,
        None => Seq::empty(),
    }
}

/// The key/value arguments among `items`, in order.
pub open spec fn key_values(items: Seq<ItemV>) -> Seq<(char, Option<Seq<u8>>)>
    decreases items.len(),
{
    if items.len() == 0 {
        Seq::empty()
    } else {
        let rest = key_values(items.drop_first());
        match items[0] {
            ItemV::Arg(ArgV::KeyValue(kv)) => seq![kv] + rest,
            _ => rest,
        }
    }
}

/// The first text payload among `items`.
pub open spec fn first_text(items: Seq<ItemV>) -> Option<Seq<u8>>
    decreases items.len(),
{
    if items.len() == 0 {
        None
    } else {
        match items[0] {
            ItemV::Arg(ArgV::Text(t)) => Some(t),
            _ => first_text(items.drop_first()),
        }
    }
}

/// The decimal digits of `n`, most significant first, without leading zeros.
pub open spec fn nat_digits(n: nat) -> Seq<u8>
    decreases n,
{
    if n < 10 {
        seq![(('0' as u8) + n) as u8]
    } else {
        nat_digits(n / 10).push((('0' as u8) + n % 10) as u8)
    }
}

pub open spec fn opt_bytes(v: Option<Seq<u8>>) -> Seq<u8> {
    match v {
        Some(t) => t,
        None => Seq::empty(),
    }
}

/// A key/value argument as written: a space, the letter, the value.
pub open spec fn kv_word(kv: (char, Option<Seq<u8>>)) -> Seq<u8> {
    let (k, v) = kv;
    seq![' ' as u8, (k as u32) as u8] + opt_bytes(v)
}

pub open spec fn kv_words(kvs: Seq<(char, Option<Seq<u8>>)>) -> Seq<u8>
    decreases kvs.len(),
{
    if kvs.len() == 0 {
        Seq::empty()
    } else {
        kv_word(kvs[0]) + kv_words(kvs.drop_first())
    }
}

/// A command written out: letter, major, `.`, minor, then its key/value arguments.
pub open spec fn command_text(m: Mnemonic, major: u32, minor: u32, kvs: Seq<(char, Option<Seq<u8>>)>) -> Seq<u8> {
    seq![spec_letter(m)] + nat_digits(major as nat) + seq!['.' as u8] + nat_digits(minor as nat) + kv_words(kvs)
}

/// A command written out, its text payload last; comments and the line number
/// are left out.
pub open spec fn gcode_text(g: GCodeV) -> Seq<u8> {
    command_text(g.mnemonic, g.major, g.minor, key_values(gcode_items(g))) + match first_text(gcode_items(g)) {
        Some(t) => seq![' ' as u8] + t,
        None => Seq::empty(),
    }
}

pub proof fn lemma_kv_words_push(kvs: Seq<(char, Option<Seq<u8>>)>, a: (char, Option<Seq<u8>>))
    ensures
        kv_words(kvs.push(a)) == kv_words(kvs) + kv_word(a),
    decreases kvs.len(),
{
    if kvs.len() == 0 {
        assert(kvs.push(a).drop_first() =~= Seq::<(char, Option<Seq<u8>>)>::empty());
        assert(kvs.push(a)[0] == a);
        assert(kv_words(kvs.push(a).drop_first()) == Seq::<u8>::empty());
        assert(kv_words(kvs) == Seq::<u8>::empty());
        assert(kv_words(kvs.push(a)) =~= kv_words(kvs) + kv_word(a));
    } else {
        assert(kvs.push(a).drop_first() =~= kvs.drop_first().push(a));
        lemma_kv_words_push(kvs.drop_first(), a);
        assert(kvs.push(a)[0] == kvs[0]);
        assert(kv_words(kvs.push(a)) == kv_word(kvs[0]) + kv_words(kvs.drop_first().push(a)));
        assert(kv_words(kvs.push(a)) =~= kv_words(kvs) + kv_word(a));
    }
}

fn push_bytes(out: &mut Vec<u8>, t: &[u8])
    ensures
        final(out)@ == old(out)@ + t@,
{
    let mut k: usize = 0;
    while k < t.len()
        invariant
            k <= t@.len(),
            out@ == old(out)@ + t@.subrange(0, k as int),
        decreases t@.len() - k,
    {
        out.push(t[k]);
        k = k + 1;
        assert(out@ =~= old(out)@ + t@.subrange(0, k as int));
    }
    assert(t@.subrange(0, k as int) =~= t@);
}

fn push_digits(out: &mut Vec<u8>, n: u32)
    ensures
        final(out)@ == old(out)@ + nat_digits(n as nat),
    decreases n,
{
    if n >= 10 {
        push_digits(out, n / 10);
    }
    out.push(('0' as u8) + (n % 10) as u8);
    assert(out@ =~= old(out)@ + nat_digits(n as nat));
}

impl<'r> GCode<'r> {
    /// The first text payload among the arguments.
    pub fn text(&self) -> (r: Option<&'r [u8]>)
        ensures
            match r {
                Some(t) => first_text(gcode_items(self@)) == Some(t@),
                None => first_text(gcode_items(self@)) is None,
            },
    {
        match &self.args_or_comments {
            None => None,
            Some(v) => {
                let ghost all = items_view(v@);
                let mut k: usize = 0;
                assert(all.subrange(0, all.len() as int) =~= all);
                while k < v.len()
                    invariant
                        k <= v@.len(),
                        all == items_view(v@),
                        self@.items == Some(all),
                        first_text(all) == first_text(all.subrange(k as int, all.len() as int)),
                    decreases v@.len() - k,
                {
                    assert(all.subrange(k as int, all.len() as int).drop_first()
                        =~= all.subrange(k + 1, all.len() as int));
                    if let ArgOrComment::Arg(Arg::Text(t)) = v[k] {
                        return Some(t);
                    }
                    k = k + 1;
                }
                None
            },
        }
    }

    /// The key/value arguments, in order.
    pub fn arguments(&self) -> (r: Vec<KeyValue<'r>>)
        ensures
            r@.map_values(|kv: KeyValue| kv_view(kv)) == key_values(gcode_items(self@)),
    {
        let mut out: Vec<KeyValue<'r>> = Vec::new();
        match &self.args_or_comments {
            None => {
                assert(out@.map_values(|kv: KeyValue| kv_view(kv)) =~= key_values(gcode_items(self@)));
                out
            },
            Some(v) => {
                let ghost all = items_view(v@);
                let mut k: usize = 0;
                assert(all.subrange(0, all.len() as int) =~= all);
                while k < v.len()
                    invariant
                        k <= v@.len(),
                        all == items_view(v@),
                        self@.items == Some(all),
                        key_values(all) == out@.map_values(|kv: KeyValue| kv_view(kv))
                            + key_values(all.subrange(k as int, all.len() as int)),
                    decreases v@.len() - k,
                {
                    assert(all.subrange(k as int, all.len() as int).drop_first()
                        =~= all.subrange(k + 1, all.len() as int));
                    if let ArgOrComment::Arg(Arg::KeyValue(kv)) = v[k] {
                        let ghost before = out@;
                        out.push(kv);
                        assert(out@.map_values(|kv: KeyValue| kv_view(kv))
                            =~= before.map_values(|kv: KeyValue| kv_view(kv)).push(kv_view(kv)));
                        assert(key_values(all) =~= out@.map_values(|kv: KeyValue| kv_view(kv))
                            + key_values(all.subrange(k + 1, all.len() as int)));
                    }
                    k = k + 1;
                }
                assert(key_values(all.subrange(k as int, all.len() as int)) =~= Seq::<(char, Option<Seq<u8>>)>::empty());
                assert(key_values(all) =~= out@.map_values(|kv: KeyValue| kv_view(kv)));
                out
            },
        }
    }

    /// The command written out: letter, major, `.`, minor, each key/value
    /// argument after a space, then the text payload after a space.
    pub fn to_text(&self) -> (r: Vec<u8>)
        ensures
            r@ == gcode_text(self@),
    {
        let mut out: Vec<u8> = Vec::new();
        out.push(self.mnemonic.letter());
        push_digits(&mut out, self.major);
        out.push('.' as u8);
        push_digits(&mut out, self.minor);
        let ghost head = out@;
        assert(head =~= seq![spec_letter(self.mnemonic)] + nat_digits(self.major as nat) + seq!['.' as u8]
            + nat_digits(self.minor as nat));
        let args = self.arguments();
        let ghost kvs = args@.map_values(|kv: KeyValue| kv_view(kv));
        let mut k: usize = 0;
        assert(kvs.subrange(0, 0) =~= Seq::<(char, Option<Seq<u8>>)>::empty());
        assert(out@ =~= head + kv_words(kvs.subrange(0, 0)));
        while k < args.len()
            invariant
                k <= args@.len(),
                kvs == args@.map_values(|kv: KeyValue| kv_view(kv)),
                out@ == head + kv_words(kvs.subrange(0, k as int)),
            decreases args@.len() - k,
        {
            let (key, value) = args[k];
            out.push(' ' as u8);
            out.push((key as u32) as u8);
            if let Some(d) = value {
                push_bytes(&mut out, d.0);
            }
            proof {
                assert(kvs.subrange(0, k + 1) =~= kvs.subrange(0, k as int).push(kvs[k as int]));
                lemma_kv_words_push(kvs.subrange(0, k as int), kvs[k as int]);
            }
            k = k + 1;
            assert(out@ =~= head + kv_words(kvs.subrange(0, k as int)));
        }
        assert(kvs.subrange(0, k as int) =~= kvs);
        if let Some(t) = self.text() {
            out.push(' ' as u8);
            push_bytes(&mut out, t);
        }
        assert(out@ =~= gcode_text(self@));
        out
    }
}

} // verus!
