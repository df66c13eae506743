//! Audio-source names: the list offered in the picker and what a chosen
//! name refers to.
use vstd::prelude::*;
use crate::text::{chars_eq, chars_of, push_str, starts_with, starts_with_at, slice_of, string_of};

verus! {

/// Marks loopback (system-audio) sources, so that they are told apart from
/// input devices of the same name.
pub const LOOPBACK_PREFIX: &'static str = "loopback:";

pub open spec fn add_unique(list: Seq<Seq<char>>, x: Seq<char>) -> Seq<Seq<char>> {
    if list.contains(x) {
        list
    } else {
        list.push(x)
    }
}

pub open spec fn add_all(list: Seq<Seq<char>>, xs: Seq<Seq<char>>) -> Seq<Seq<char>>
    decreases xs.len(),
{
    if xs.len() == 0 {
        list
    } else {
        add_unique(add_all(list, xs.drop_last()), xs.last())
    }
}

pub open spec fn loopback_name(name: Seq<char>) -> Seq<char> {
    "loopback:"@ + name
}

/// `"default"`, then each input device, then each output device as a
/// loopback source, skipping names already listed.
pub open spec fn device_entries(inputs: Seq<Seq<char>>, outputs: Seq<Seq<char>>) -> Seq<Seq<char>> {
    add_all(add_all(seq!["default"@], inputs), outputs.map_values(|o: Seq<char>| loopback_name(o)))
}

pub open spec fn string_views(v: Seq<String>) -> Seq<Seq<char>> {
    v.map_values(|s: String| s@)
}

fn contains_name(list: &Vec<String>, name: &[char]) -> (r: bool)
    ensures
        r == string_views(list@).contains(name@),
{
    let mut i: usize = 0;
    while i < list.len()
        invariant
            i <= list@.len(),
            forall|j: int| 0 <= j < i ==> list@[j]@ != name@,
        decreases list@.len() - i,
    {
        if chars_eq(&chars_of(list[i].as_str()), name) {
            assert(string_views(list@)[i as int] == name@);
            return true;
        }
        i += 1;
    }
    assert forall|j: int| 0 <= j < string_views(list@).len() implies string_views(list@)[j] != name@ by {
        assert(string_views(list@)[j] == list@[j]@);
    }
    false
}

fn add_names(out: &mut Vec<String>, names: &Vec<String>, loopback: bool)
    ensures
        !loopback ==> string_views(final(out)@) == add_all(string_views(old(out)@), string_views(names@)),
        loopback ==> string_views(final(out)@) == add_all(
            string_views(old(out)@),
            string_views(names@).map_values(|o: Seq<char>| loopback_name(o)),
        ),
{
    let ghost xs = if loopback {
        string_views(names@).map_values(|o: Seq<char>| loopback_name(o))
    } else {
        string_views(names@)
    };
    let mut i: usize = 0;
    while i < names.len()
        invariant
            i <= names@.len(),
            xs.len() == names@.len(),
            forall|j: int| 0 <= j < names@.len() ==> #[trigger] xs[j] == if loopback {
                loopback_name(names@[j]@)
            } else {
                names@[j]@
            },
            string_views(out@) == add_all(string_views(old(out)@), xs.subrange(0, i as int)),
        decreases names@.len() - i,
    {
        let mut label: Vec<char> = Vec::new();
        if loopback {
            push_str(&mut label, LOOPBACK_PREFIX);
        }
        push_str(&mut label, names[i].as_str());
        proof {
            reveal_strlit("loopback:");
            assert(label@ == xs[i as int]);
            assert(xs.subrange(0, i + 1).drop_last() == xs.subrange(0, i as int));
        }
        let ghost before = string_views(out@);
        if !contains_name(out, &label) {
            let s = string_of(&label);
            out.push(s);
            assert(string_views(out@) =~= before.push(s@));
        }
        i += 1;
    }
    assert(xs.subrange(0, names@.len() as int) == xs);
}

/// The audio sources offered to the user, given the names of the input and
/// output devices found.
pub fn device_list(inputs: &Vec<String>, outputs: &Vec<String>) -> (r: Vec<String>)
    ensures
        string_views(r@) == device_entries(string_views(inputs@), string_views(outputs@)),
{
    let mut out: Vec<String> = Vec::new();
    out.push(string_of(&chars_of("default")));
    assert(string_views(out@) =~= seq!["default"@]);
    add_names(&mut out, inputs, false);
    add_names(&mut out, outputs, true);
    out
}

/// What a source name refers to.
#[derive(Clone, Debug, PartialEq, Eq)]
pub enum DeviceSource {
    /// An output device captured as loopback, by its device name.
    Loopback(String),
    /// The host's default input device.
    Default,
    /// The input device of this name.
    Named(String),
}

pub open spec fn source_for(name: Seq<char>) -> DeviceSourceView {
    if starts_with(name, "loopback:"@) {
        DeviceSourceView::Loopback(name.subrange(9, name.len() as int))
    } else if name == "default"@ {
        DeviceSourceView::Default
    } else {
        DeviceSourceView::Named(name)
    }
}

pub enum DeviceSourceView {
    Loopback(Seq<char>),
    Default,
    Named(Seq<char>),
}

impl View for DeviceSource {
    type V = DeviceSourceView;

    open spec fn view(&self) -> DeviceSourceView {
        match self {
            DeviceSource::Loopback(n) => DeviceSourceView::Loopback(n@),
            DeviceSource::Default => DeviceSourceView::Default,
            DeviceSource::Named(n) => DeviceSourceView::Named(n@),
        }
    }
}

/// A name with the loopback prefix is a loopback source; `"default"` is the
/// default input; anything else names an input device.
pub fn parse_device(name: &str) -> (r: DeviceSource)
    ensures
        r@ == source_for(name@),
{
    let n = chars_of(name);
    let prefix = chars_of(LOOPBACK_PREFIX);
    proof {
        reveal_strlit("loopback:");
    }
    assert(n@.subrange(0, n@.len() as int) == n@);
    if starts_with_at(&n, 0, &prefix) {
        DeviceSource::Loopback(string_of(&slice_of(&n, 9, n.len())))
    } else if chars_eq(&n, &chars_of("default")) {
        DeviceSource::Default
    } else {
        DeviceSource::Named(string_of(&n))
    }
}

/// The name shown for a capture: loopback sources keep their prefix.
pub fn capture_name(loopback: bool, device_name: &str) -> (r: String)
    ensures
        loopback ==> r@ == loopback_name(device_name@),
        !loopback ==> r@ == device_name@,
{
    let mut out: Vec<char> = Vec::new();
    if loopback {
        push_str(&mut out, LOOPBACK_PREFIX);
    }
    push_str(&mut out, device_name);
    proof {
        reveal_strlit("loopback:");
    }
    string_of(&out)
}


pub open spec fn no_duplicates(s: Seq<Seq<char>>) -> bool {
    forall|i: int, j: int| 0 <= i < j < s.len() ==> s[i] != s[j]
}

/// Adding names keeps a list free of duplicates and makes it contain
/// every added name and everything it held before.
pub proof fn lemma_add_all(list: Seq<Seq<char>>, xs: Seq<Seq<char>>)
    requires
        no_duplicates(list),
    ensures
        no_duplicates(add_all(list, xs)),
        forall|k: int| 0 <= k < xs.len() ==> add_all(list, xs).contains(#[trigger] xs[k]),
        forall|k: int| 0 <= k < list.len() ==> add_all(list, xs).contains(#[trigger] list[k]),
        add_all(list, xs).len() >= list.len(),
        add_all(list, xs).subrange(0, list.len() as int) == list,
    decreases xs.len(),
{
    if xs.len() > 0 {
        lemma_add_all(list, xs.drop_last());
        let prev = add_all(list, xs.drop_last());
        let x = xs.last();
        if !prev.contains(x) {
            let next = prev.push(x);
            assert forall|i: int, j: int| 0 <= i < j < next.len() implies next[i] != next[j] by {
                if j == next.len() - 1 {
                    assert(next[i] == prev[i]);
                    if next[i] == x {
                        assert(prev.contains(x));
                    }
                }
            }
            assert forall|k: int| 0 <= k < xs.len() implies next.contains(#[trigger] xs[k]) by {
                if k < xs.len() - 1 {
                    assert(xs[k] == xs.drop_last()[k]);
                    let w = choose|w: int| 0 <= w < prev.len() && prev[w] == xs[k];
                    assert(next[w] == xs[k]);
                } else {
                    assert(next[next.len() - 1] == x);
                }
            }
            assert forall|k: int| 0 <= k < list.len() implies next.contains(#[trigger] list[k]) by {
                let w = choose|w: int| 0 <= w < prev.len() && prev[w] == list[k];
                assert(next[w] == list[k]);
            }
            assert(next.subrange(0, list.len() as int) =~= prev.subrange(0, list.len() as int));
        } else {
            assert forall|k: int| 0 <= k < xs.len() implies prev.contains(#[trigger] xs[k]) by {
                if k < xs.len() - 1 {
                    assert(xs[k] == xs.drop_last()[k]);
                }
            }
        }
    }
}

/// The picker's list starts with `"default"`, names each source once, and
/// holds every input device and every output device as a loopback source.
pub proof fn lemma_device_entries(inputs: Seq<Seq<char>>, outputs: Seq<Seq<char>>)
    ensures
        device_entries(inputs, outputs).len() > 0,
        device_entries(inputs, outputs)[0] == "default"@,
        no_duplicates(device_entries(inputs, outputs)),
        forall|k: int| 0 <= k < inputs.len() ==> device_entries(inputs, outputs).contains(#[trigger] inputs[k]),
        forall|k: int|
            0 <= k < outputs.len() ==> device_entries(inputs, outputs).contains(
                loopback_name(#[trigger] outputs[k]),
            ),
{
    let base = seq!["default"@];
    lemma_add_all(base, inputs);
    let mid = add_all(base, inputs);
    let louts = outputs.map_values(|o: Seq<char>| loopback_name(o));
    lemma_add_all(mid, louts);
    assert(mid[0] == "default"@) by {
        assert(mid.subrange(0, 1) == base);
        assert(mid.subrange(0, 1)[0] == mid[0]);
    }
    let fin = add_all(mid, louts);
    assert(fin.subrange(0, mid.len() as int)[0] == fin[0]);
    assert forall|k: int| 0 <= k < inputs.len() implies fin.contains(#[trigger] inputs[k]) by {
        let w = choose|w: int| 0 <= w < mid.len() && mid[w] == inputs[k];
        assert(fin.subrange(0, mid.len() as int)[w] == fin[w]);
    }
    assert forall|k: int| 0 <= k < outputs.len() implies fin.contains(loopback_name(#[trigger] outputs[k])) by {
        assert(louts[k] == loopback_name(outputs[k]));
    }
}

} // verus!
