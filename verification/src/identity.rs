//! Which hardware displays stand behind each display output of the
//! operating system.

use crate::table::Table;
use crate::text::texts;
use vstd::prelude::*;

verus! {

/// What enumerating one display output of the operating system gave.
pub struct OutputReport {
    /// The output's device name; `None` where the system has none for it.
    pub name: Option<String>,
    /// The identities of the hardware displays attached to the output, in
    /// the order of their enumeration; `None` where enumerating them failed.
    pub attached: Option<Vec<String>>,
}

/// An output report, with its texts as character sequences.
pub struct OutputView {
    pub name: Option<Seq<char>>,
    pub attached: Option<Seq<Seq<char>>>,
}

impl View for OutputReport {
    type V = OutputView;

    open spec fn view(&self) -> OutputView {
        OutputView {
            name: match self.name {
                Some(name) => Some(name@),
                None => None,
            },
            attached: match self.attached {
                Some(list) => Some(texts(list@)),
                None => None,
            },
        }
    }
}

/// The reports of a list of outputs, in order.
pub open spec fn output_views(outputs: Seq<OutputReport>) -> Seq<OutputView> {
    Seq::new(outputs.len(), |i: int| outputs[i]@)
}

/// The mapping that a run of output reports gives. An output enters it
/// only with both its name and its displays; a name reported again takes
/// the later list.
pub open spec fn mapped(outputs: Seq<OutputView>) -> Map<Seq<char>, Seq<Seq<char>>>
    decreases outputs.len(),
{
    if outputs.len() == 0 {
        Map::empty()
    } else {
        let earlier = mapped(outputs.drop_last());
        match (outputs.last().name, outputs.last().attached) {
            (Some(name), Some(attached)) => earlier.insert(name, attached),
            _ => earlier,
        }
    }
}

/// The text that `String::from_utf16_lossy` decodes a run of UTF-16 code
/// units to.
pub uninterp spec fn utf16_lossy(units: Seq<u16>) -> Seq<char>;

/// Decodes UTF-16 code units with `String::from_utf16_lossy`, which puts
/// the replacement character in place of each unit that is no valid UTF-16.
/// The text depends on the units alone.
#[verifier::external_body]
fn decode_utf16(units: &[u16]) -> (text: String)
    ensures
        text@ == utf16_lossy(units@),
{
    String::from_utf16_lossy(units)
}

/// A text without the NUL characters at its end.
pub open spec fn without_trailing_nuls(text: Seq<char>) -> Seq<char>
    decreases text.len(),
{
    if text.len() > 0 && text.last() == '\0' {
        without_trailing_nuls(text.drop_last())
    } else {
        text
    }
}

/// Cuts the NUL characters off the end of a text.
pub fn trim_trailing_nuls(text: &str) -> (trimmed: String)
    ensures
        trimmed@ == without_trailing_nuls(text@),
{
    let mut end: usize = text.unicode_len();
    assert(text@.take(end as int) =~= text@);
    while end > 0 && text.get_char(end - 1) == '\0'
        invariant
            end <= text@.len(),
            without_trailing_nuls(text@) == without_trailing_nuls(text@.take(end as int)),
        decreases end,
    {
        assert(text@.take(end as int).drop_last() =~= text@.take(end - 1));
        end -= 1;
    }
    assert(end > 0 ==> text@.take(end as int).last() == text@[end - 1]);
    assert(text@.subrange(0, end as int) =~= text@.take(end as int));
    text.substring_char(0, end).to_owned()
}

/// The device name of an output, from the buffer that the operating system
/// filled with it: the UTF-16 code units decoded, without the NUL
/// characters that pad the buffer.
pub fn device_name(raw: &[u16]) -> (name: String)
    ensures
        name@ == without_trailing_nuls(utf16_lossy(raw@)),
{
    let decoded = decode_utf16(raw);
    trim_trailing_nuls(decoded.as_str())
}

/// From the device name of an output to the identities of the hardware
/// displays that are part of it.
pub struct IdentityMap {
    outputs: Table<Vec<String>>,
}

impl View for IdentityMap {
    type V = Map<Seq<char>, Seq<Seq<char>>>;

    /// The identities behind each device name that the map holds.
    closed spec fn view(&self) -> Map<Seq<char>, Seq<Seq<char>>> {
        Map::new(
            |name: Seq<char>| self.outputs@.contains_key(name),
            |name: Seq<char>| texts(self.outputs@[name]@),
        )
    }
}

impl IdentityMap {
    /// The table inside is well-formed.
    pub closed spec fn wf(&self) -> bool {
        self.outputs.wf()
    }

    /// A map without any output.
    pub fn new() -> (map: Self)
        ensures
            map.wf(),
            map@ == Map::<Seq<char>, Seq<Seq<char>>>::empty(),
    {
        let map = IdentityMap { outputs: Table::new() };
        assert(map@ =~= Map::<Seq<char>, Seq<Seq<char>>>::empty());
        map
    }

    /// Maps `name` to `attached`, in place of what it was mapped to before.
    pub fn insert(&mut self, name: String, attached: Vec<String>)
        requires
            old(self).wf(),
        ensures
            final(self).wf(),
            final(self)@ == old(self)@.insert(name@, texts(attached@)),
    {
        let ghost before = *self;
        self.outputs.insert(name, attached);
        assert(self@ =~= before@.insert(name@, texts(attached@)));
    }

    /// The hardware displays of the output called `name`, if the map has it.
    pub fn get(&self, name: &String) -> (found: Option<&Vec<String>>)
        requires
            self.wf(),
        ensures
            match found {
                Some(attached) => self@.contains_key(name@) && texts(attached@) == self@[name@],
                None => !self@.contains_key(name@),
            },
    {
        self.outputs.get(name)
    }
}

/// Builds the identity map from what enumerating the outputs gave. Where the
/// enumeration itself failed there is no map, and its error is handed on.
/// An output without a name, or whose displays could not be enumerated,
/// adds nothing.
pub fn build_os_to_ddc_map<E>(enumerated: Result<Vec<OutputReport>, E>) -> (built: Result<
    IdentityMap,
    E,
>)
    ensures
        match enumerated {
            Ok(outputs) => built matches Ok(map) && map.wf() && map@ == mapped(output_views(outputs@)),
            Err(error) => built matches Err(handed) && handed == error,
        },
{
    let outputs = match enumerated {
        Ok(outputs) => outputs,
        Err(error) => {
            return Err(error);
        },
    };
    let ghost all = output_views(outputs@);
    let ghost reports = outputs@;
    let mut mapping = IdentityMap::new();
    for output in it: outputs
        invariant
            it.seq() == reports,
            all == output_views(reports),
            mapping.wf(),
            mapping@ == mapped(all.take(it.index())),
    {
        proof {
            let done = it.index();
            assert(all.take(done + 1).drop_last() =~= all.take(done));
            assert(all.take(done + 1).last() == output@);
        }
        if let Some(name) = output.name {
            if let Some(attached) = output.attached {
                mapping.insert(name, attached);
            }
        }
    }
    assert(all.take(all.len() as int) =~= all);
    Ok(mapping)
}

} // verus!
