//! The command lines around the hook servers: the arguments `cargo dredd` hands
//! to Dredd, and the hook targets it reads from the package manifest.

use vstd::prelude::*;
use crate::text::{join, text_of};

verus! {

/// The texts of `s`, in order.
pub open spec fn texts(s: Seq<String>) -> Seq<Seq<char>> {
    s.map_values(|t: String| t@)
}

/// The text of an optional string.
pub open spec fn option_text(o: Option<String>) -> Option<Seq<char>> {
    match o {
        Some(t) => Some(t@),
        None => None,
    }
}

/// The language flag for Dredd: the language given, `rust` when none is.
pub open spec fn language_flag(language: Option<Seq<char>>) -> Seq<char> {
    "--language="@ + match language {
        Some(l) => l,
        None => "rust"@,
    }
}

/// The flag that names one compiled hook file to Dredd.
pub open spec fn hookfile_flag(binary: Seq<char>) -> Seq<char> {
    "--hookfiles="@ + binary
}

/// The arguments for Dredd: the blueprint, the server's URL, the language flag,
/// and a hook file flag for each compiled hook target, in order.
pub open spec fn dredd_argument_texts(
    blueprint: Seq<char>,
    server_url: Seq<char>,
    language: Option<Seq<char>>,
    binaries: Seq<Seq<char>>,
) -> Seq<Seq<char>> {
    seq![blueprint, server_url, language_flag(language)] + binaries.map_values(|b: Seq<char>| hookfile_flag(b))
}

/// The arguments with which `cargo dredd` runs Dredd.
pub fn dredd_arguments(
    blueprint: String,
    server_url: String,
    language: Option<String>,
    hook_binaries: Vec<String>,
) -> (r: Vec<String>)
    ensures
        texts(r@) == dredd_argument_texts(
            blueprint@,
            server_url@,
            option_text(language),
            texts(hook_binaries@),
        ),
        r@.len() == 3 + hook_binaries@.len(),
        r@[0]@ == blueprint@,
        r@[1]@ == server_url@,
        r@[2]@ == "--language="@ + (if language is Some { language->0@ } else { "rust"@ }),
        forall|i: int| 0 <= i < hook_binaries@.len() ==> #[trigger] r@[3 + i]@ == "--hookfiles="@ + hook_binaries@[i]@,
        texts(r@).skip(3) == texts(hook_binaries@).map_values(|b: Seq<char>| "--hookfiles="@ + b),
{
    let ghost lang = option_text(language);
    let ghost bins = texts(hook_binaries@);
    let mut r: Vec<String> = Vec::new();
    r.push(blueprint);
    r.push(server_url);
    let flag = match language {
        Some(l) => join(text_of("--language="), l.as_str()),
        None => join(text_of("--language="), "rust"),
    };
    r.push(flag);
    let ghost head = texts(r@);
    assert(head =~= seq![blueprint@, server_url@, language_flag(lang)]);
    let mut i: usize = 0;
    while i < hook_binaries.len()
        invariant
            i <= hook_binaries@.len(),
            bins == texts(hook_binaries@),
            texts(r@) == head + bins.take(i as int).map_values(|b: Seq<char>| hookfile_flag(b)),
        decreases hook_binaries@.len() - i,
    {
        let flag = join(text_of("--hookfiles="), hook_binaries[i].as_str());
        let ghost before = r@;
        r.push(flag);
        proof {
            assert(bins.take(i + 1) =~= bins.take(i as int).push(bins[i as int]));
            assert(texts(r@) =~= texts(before).push(flag@));
            assert(bins.take(i + 1).map_values(|b: Seq<char>| hookfile_flag(b)) =~= bins.take(i as int).map_values(|b: Seq<char>| hookfile_flag(b)).push(hookfile_flag(bins[i as int])));
        }
        i += 1;
    }
    assert(bins.take(i as int) =~= bins);
    proof {
        law_dredd_arguments(blueprint@, server_url@, lang, bins);
        assert forall|k: int| 0 <= k < hook_binaries@.len() implies #[trigger] r@[3 + k]@ == "--hookfiles="@ + hook_binaries@[k]@ by {
            assert(texts(r@)[3 + k] == r@[3 + k]@);
        }
        assert(texts(r@)[0] == r@[0]@);
        assert(texts(r@)[1] == r@[1]@);
        assert(texts(r@)[2] == r@[2]@);
        assert(texts(r@).skip(3) =~= texts(hook_binaries@).map_values(|b: Seq<char>| "--hookfiles="@ + b));
    }
    r
}

/// The texts among `entries` that are present, in order.
pub open spec fn present_texts(entries: Seq<Option<String>>) -> Seq<Seq<char>>
    decreases entries.len(),
{
    if entries.len() == 0 {
        Seq::empty()
    } else {
        let rest = present_texts(entries.drop_last());
        match entries.last() {
            Some(t) => rest.push(t@),
            None => rest,
        }
    }
}

/// The present entries of `entries`, in order, as texts.
pub open spec fn kept_entries(entries: Seq<Option<String>>) -> Seq<Seq<char>> {
    entries.filter(|e: Option<String>| e is Some).map_values(|e: Option<String>| e->0@)
}

/// Every entry that is present is kept, in order, and nothing else: the hook
/// targets are the entries that are strings, filtered out of the array.
pub proof fn law_hook_targets_are_the_present_entries(entries: Seq<Option<String>>)
    ensures
        present_texts(entries) == kept_entries(entries),
    decreases entries.len(),
{
    reveal_with_fuel(Seq::filter, 1);
    if entries.len() > 0 {
        law_hook_targets_are_the_present_entries(entries.drop_last());
        let pred = |e: Option<String>| e is Some;
        let rest = entries.drop_last().filter(pred);
        if entries.last() is Some {
            assert(entries.filter(pred) == rest.push(entries.last()));
            assert(rest.push(entries.last()).map_values(|e: Option<String>| e->0@) =~= rest.map_values(
                |e: Option<String>| e->0@,
            ).push(entries.last()->0@));
        } else {
            assert(entries.filter(pred) == rest);
        }
    }
}

/// The arguments for Dredd are the blueprint, the server's URL and the language
/// flag (`rust` when no language is given), then one hook file flag for each
/// binary, in order, whatever the language.
pub proof fn law_dredd_arguments(
    blueprint: Seq<char>,
    server_url: Seq<char>,
    language: Option<Seq<char>>,
    binaries: Seq<Seq<char>>,
)
    ensures
        ({
            let args = dredd_argument_texts(blueprint, server_url, language, binaries);
            &&& args.len() == 3 + binaries.len()
            &&& args[0] == blueprint
            &&& args[1] == server_url
            &&& args[2] == "--language="@ + (if language is Some { language->0 } else { "rust"@ })
            &&& forall|i: int| 0 <= i < binaries.len() ==> #[trigger] args[3 + i] == "--hookfiles="@ + binaries[i]
        }),
{
}

/// The hook targets named in the manifest: of the entries of its `hook_targets`
/// array, those that are strings (given here as present texts), in order.
pub fn select_hook_targets(entries: Vec<Option<String>>) -> (r: Vec<String>)
    ensures
        texts(r@) == present_texts(entries@),
        texts(r@) == kept_entries(entries@),
{
    proof {
        law_hook_targets_are_the_present_entries(entries@);
    }
    let mut r: Vec<String> = Vec::new();
    let mut i: usize = 0;
    let ghost all = entries@;
    while i < entries.len()
        invariant
            i <= entries@.len(),
            entries@ == all,
            texts(r@) == present_texts(all.take(i as int)),
        decreases all.len() - i,
    {
        match &entries[i] {
            Some(t) => {
                r.push(t.clone());
            },
            None => {},
        }
        proof {
            assert(all.take(i + 1).drop_last() =~= all.take(i as int));
            assert(texts(r@) =~= present_texts(all.take(i + 1)));
        }
        i += 1;
    }
    assert(all.take(i as int) =~= all);
    r
}

} // verus!
