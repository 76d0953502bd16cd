//! Discovery of connection-behavior plugins: which files in a plugins
//! directory count as loadable modules, and the display name each one gets.
//! Reading the directory itself is left to the caller; the rules applied to
//! what it finds are here.

use crate::containers::chars_of;
use crate::containers::split_on;
use vstd::prelude::*;
use vstd::string::StrSliceExecFns;
use vstd::string::StringExecFns;

verus! {

/// Whether a file name names a loadable module: a platform library
/// extension.
pub open spec fn is_plugin_file(s: Seq<char>) -> bool {
    (s.len() >= 4 && s.skip(s.len() - 4) == ".dll"@) || (s.len() >= 3 && s.skip(s.len() - 3)
        == ".so"@)
}

/// The display name of a plugin file: everything before its first dot.
pub open spec fn plugin_stem(s: Seq<char>) -> Seq<char> {
    split_on(s, '.')[0]
}

/// The display names of the plugin files among `files`, in order.
pub open spec fn spec_plugin_names(files: Seq<Seq<char>>) -> Seq<Seq<char>>
    decreases files.len(),
{
    if files.len() == 0 {
        Seq::empty()
    } else {
        let init = spec_plugin_names(files.drop_last());
        if is_plugin_file(files.last()) {
            init.push(plugin_stem(files.last()))
        } else {
            init
        }
    }
}

/// The first piece of a split is the text up to the first separator.
proof fn lemma_split_first(s: Seq<char>, sep: char, idx: int)
    requires
        0 <= idx <= s.len(),
        forall|j: int| 0 <= j < idx ==> s[j] != sep,
        idx == s.len() || s[idx] == sep,
    ensures
        split_on(s, sep)[0] == s.take(idx),
    decreases s.len(),
{
    crate::containers::lemma_split_on_len(s, sep);
    if s.len() == 0 {
        assert(s.take(idx) =~= Seq::<char>::empty());
    } else if s[0] == sep {
        assert(idx == 0);
        assert(s.take(0) =~= Seq::<char>::empty());
    } else {
        assert(idx >= 1);
        assert(forall|j: int| 0 <= j < idx - 1 ==> s.drop_first()[j] != sep);
        lemma_split_first(s.drop_first(), sep, idx - 1);
        crate::containers::lemma_split_on_len(s.drop_first(), sep);
        assert(split_on(s, sep)[0] == seq![s[0]] + split_on(s.drop_first(), sep)[0]);
        assert(seq![s[0]] + s.drop_first().take(idx - 1) =~= s.take(idx));
    }
}

/// Whether the text in `v` carries a platform library extension.
fn has_plugin_extension(v: &Vec<char>) -> (r: bool)
    ensures
        r == is_plugin_file(v@),
{
    let l = v.len();
    let dll = l >= 4 && v[l - 4] == '.' && v[l - 3] == 'd' && v[l - 2] == 'l' && v[l - 1] == 'l';
    let so = l >= 3 && v[l - 3] == '.' && v[l - 2] == 's' && v[l - 1] == 'o';
    proof {
        reveal_strlit(".dll");
        reveal_strlit(".so");
        if l >= 4 {
            if dll {
                assert(v@.skip(l - 4) =~= ".dll"@);
            } else if v@.skip(l - 4) == ".dll"@ {
                assert(v@[l - 4] == v@.skip(l - 4)[0]);
                assert(v@[l - 3] == v@.skip(l - 4)[1]);
                assert(v@[l - 2] == v@.skip(l - 4)[2]);
                assert(v@[l - 1] == v@.skip(l - 4)[3]);
                assert(false);
            }
        }
        if l >= 3 {
            if so {
                assert(v@.skip(l - 3) =~= ".so"@);
            } else if v@.skip(l - 3) == ".so"@ {
                assert(v@[l - 3] == v@.skip(l - 3)[0]);
                assert(v@[l - 2] == v@.skip(l - 3)[1]);
                assert(v@[l - 1] == v@.skip(l - 3)[2]);
                assert(false);
            }
        }
    }
    dll || so
}

/// The display names of the plugin files among `files`: the caller lists a
/// directory, this keeps the entries with a platform library extension and
/// trims each to the text before its first dot, keeping their order.
pub fn plugin_names(files: &Vec<String>) -> (r: Vec<String>)
    ensures
        r@.map_values(|s: String| s@) == spec_plugin_names(
            files@.map_values(|s: String| s@),
        ),
{
    let ghost views = files@.map_values(|s: String| s@);
    let mut r: Vec<String> = Vec::new();
    let mut i: usize = 0;
    while i < files.len()
        invariant
            i <= files.len(),
            views == files@.map_values(|s: String| s@),
            r@.map_values(|s: String| s@) == spec_plugin_names(views.take(i as int)),
        decreases files.len() - i,
    {
        let name = &files[i];
        let v = chars_of(name.as_str());
        proof {
            assert(views.take(i + 1).drop_last() =~= views.take(i as int));
            assert(views.take(i + 1).last() == v@);
        }
        if has_plugin_extension(&v) {
            let mut idx: usize = 0;
            while idx < v.len() && v[idx] != '.'
                invariant
                    idx <= v.len(),
                    v@ == name@,
                    forall|j: int| 0 <= j < idx ==> v@[j] != '.',
                decreases v.len() - idx,
            {
                idx = idx + 1;
            }
            let stem = name.as_str().substring_char(0, idx).to_owned();
            proof {
                lemma_split_first(v@, '.', idx as int);
                assert(stem@ == plugin_stem(v@));
            }
            r.push(stem);
            proof {
                assert(r@.map_values(|s: String| s@) =~= spec_plugin_names(
                    views.take(i + 1),
                ));
            }
        } else {
            proof {
                assert(r@.map_values(|s: String| s@) =~= spec_plugin_names(
                    views.take(i + 1),
                ));
            }
        }
        i = i + 1;
    }
    proof {
        assert(views.take(files@.len() as int) =~= views);
    }
    r
}

/// Whether a host speaking ABI version `host` can drive a plugin built for
/// ABI version `plugin`, by the same rule cargo applies to semantic
/// versions: before major 1 each minor version is its own interface and the
/// plugin's patch must be at least the host's; from major 1 on the majors
/// must match and the plugin's minor must be at least the host's.
pub open spec fn spec_version_compatible(host: (u32, u32, u32), plugin: (u32, u32, u32)) -> bool {
    if host.0 == 0 && plugin.0 == 0 {
        host.1 == plugin.1 && host.2 <= plugin.2
    } else {
        host.0 == plugin.0 && host.1 <= plugin.1
    }
}

/// The compatibility rule the plugin host applies before any connection
/// work begins: an incompatible version is a load-time failure, never a
/// runtime one.
pub fn version_compatible(host: (u32, u32, u32), plugin: (u32, u32, u32)) -> (r: bool)
    ensures
        r == spec_version_compatible(host, plugin),
{
    if host.0 == 0 && plugin.0 == 0 {
        host.1 == plugin.1 && host.2 <= plugin.2
    } else {
        host.0 == plugin.0 && host.1 <= plugin.1
    }
}

/// The path a plugin is loaded from: the plugins directory and the module
/// file name, joined.
pub fn plugin_path(dir: &str, name: &str) -> (r: String)
    ensures
        r@ == dir@ + "/"@ + name@,
{
    let mut r = dir.to_owned();
    r.append("/");
    r.append(name);
    r
}

} // verus!
