//! Path rules for spawning language servers.
//!
//! A plugin may ask the host to spawn a "system" language server, found
//! through the system search path.  Such a request must reduce to a bare file
//! name: directory components are stripped, and a path that carries a
//! parent-directory component, or no file name at all, is refused outright.
//! This is the boundary that keeps a plugin from directing the host to execute
//! an arbitrary filesystem path.  A non-system server is resolved against the
//! requesting plugin's own installation directory instead.

use crate::strutil::{free_of, lemma_split_pieces_free, split_seq, split_str};
use vstd::prelude::*;

verus! {

/// The `/`-separated components of `p` that name something: empty components
/// and bare `.` components are dropped.
pub open spec fn named_segments(v: Seq<Seq<char>>) -> Seq<Seq<char>>
    decreases v.len(),
{
    if v.len() == 0 {
        Seq::<Seq<char>>::empty()
    } else {
        let rest = named_segments(v.skip(1));
        if v[0].len() > 0 && v[0] != seq!['.'] {
            seq![v[0]] + rest
        } else {
            rest
        }
    }
}

/// The named components of path `p`.
pub open spec fn path_segments(p: Seq<char>) -> Seq<Seq<char>> {
    named_segments(split_seq(p, '/'))
}

/// Whether any component of the path walks up to a parent directory.
pub open spec fn has_parent_component(p: Seq<char>) -> bool {
    exists|i: int|
        0 <= i < path_segments(p).len() && path_segments(p)[i] == seq!['.', '.']
}

/// The bare executable name a system language-server request reduces to:
/// the last named component, provided the path names something and never
/// walks up to a parent directory; `None` refuses the request.
pub open spec fn system_exec_name_spec(p: Seq<char>) -> Option<Seq<char>> {
    if path_segments(p).len() == 0 || has_parent_component(p) {
        None
    } else {
        Some(path_segments(p).last())
    }
}

/// A path joined below a base directory: an absolute path stands alone.
pub open spec fn join_path_spec(base: Seq<char>, rel: Seq<char>) -> Seq<char> {
    if rel.len() > 0 && rel[0] == '/' {
        rel
    } else {
        base + seq!['/'] + rel
    }
}

proof fn lemma_named_segments_concat(a: Seq<Seq<char>>, b: Seq<Seq<char>>)
    ensures
        named_segments(a + b) =~~= named_segments(a) + named_segments(b),
    decreases a.len(),
{
    if a.len() == 0 {
        assert(a + b =~~= b);
        assert(named_segments(a) =~~= Seq::<Seq<char>>::empty());
    } else {
        assert((a + b).skip(1) =~~= a.skip(1) + b);
        lemma_named_segments_concat(a.skip(1), b);
        assert((a + b)[0] == a[0]);
        if a[0].len() > 0 && a[0] != seq!['.'] {
            assert(named_segments(a + b) =~~= seq![a[0]] + (named_segments(a.skip(1))
                + named_segments(b)));
            assert(seq![a[0]] + (named_segments(a.skip(1)) + named_segments(b)) =~~= (seq![a[0]]
                + named_segments(a.skip(1))) + named_segments(b));
        }
    }
}

/// Every named component comes from the split, so it contains no `/`.
proof fn lemma_named_segments_from(v: Seq<Seq<char>>)
    ensures
        forall|i: int|
            0 <= i < named_segments(v).len() ==> exists|j: int|
                0 <= j < v.len() && #[trigger] named_segments(v)[i] == v[j],
    decreases v.len(),
{
    if v.len() == 0 {
    } else {
        lemma_named_segments_from(v.skip(1));
        assert forall|i: int| 0 <= i < named_segments(v).len() implies exists|j: int|
            0 <= j < v.len() && #[trigger] named_segments(v)[i] == v[j] by {
            let rest = named_segments(v.skip(1));
            if v[0].len() > 0 && v[0] != seq!['.'] {
                if i == 0 {
                    assert(named_segments(v)[0] == v[0]);
                } else {
                    assert(named_segments(v)[i] == rest[i - 1]);
                    let j = choose|j: int| 0 <= j < v.skip(1).len() && rest[i - 1] == v.skip(1)[j];
                    assert(named_segments(v)[i] == v[j + 1]);
                }
            } else {
                assert(named_segments(v)[i] == rest[i]);
                let j = choose|j: int| 0 <= j < v.skip(1).len() && rest[i] == v.skip(1)[j];
                assert(named_segments(v)[i] == v[j + 1]);
            }
        }
    }
}

/// An accepted system executable name is a bare file name: it has characters,
/// it contains no `/`, and it is not a parent-directory component.
pub proof fn lemma_system_exec_name_is_bare(p: Seq<char>, name: Seq<char>)
    requires
        system_exec_name_spec(p) == Some(name),
    ensures
        name.len() > 0,
        free_of(name, '/'),
        name != seq!['.', '.'],
        name != seq!['.'],
{
    let segs = path_segments(p);
    assert(segs.len() > 0);
    assert(name == segs.last());
    lemma_named_segments_from(split_seq(p, '/'));
    let j = choose|j: int|
        0 <= j < split_seq(p, '/').len() && segs[segs.len() - 1] == split_seq(p, '/')[j];
    lemma_split_pieces_free(p, '/');
    assert(free_of(name, '/'));
    assert(!has_parent_component(p));
    assert(segs[segs.len() - 1] != seq!['.', '.']);
    lemma_named_length(split_seq(p, '/'), segs.len() - 1);
}

proof fn lemma_named_length(v: Seq<Seq<char>>, i: int)
    requires
        0 <= i < named_segments(v).len(),
    ensures
        named_segments(v)[i].len() > 0,
        named_segments(v)[i] != seq!['.'],
    decreases v.len(),
{
    if v.len() == 0 {
    } else {
        if v[0].len() > 0 && v[0] != seq!['.'] {
            if i > 0 {
                lemma_named_length(v.skip(1), i - 1);
            }
        } else {
            lemma_named_length(v.skip(1), i);
        }
    }
}

/// Reduces a system language-server request to its bare executable name, or
/// refuses it.
pub fn system_exec_name(exec_path: &str) -> (r: Option<String>)
    ensures
        match r {
            Some(name) => system_exec_name_spec(exec_path@) == Some(name@),
            None => system_exec_name_spec(exec_path@) is None,
        },
{
    let pieces = split_str(exec_path, '/');
    let ghost sv = crate::strutil::seq_views(pieces@);
    proof {
        assert(sv == split_seq(exec_path@, '/'));
    }
    let dot = ".";
    let dotdot = "..";
    proof {
        reveal_strlit(".");
        reveal_strlit("..");
        assert(dot@ =~= seq!['.']);
        assert(dotdot@ =~= seq!['.', '.']);
    }
    let mut last: Option<usize> = None;
    let mut traversal = false;
    let mut i: usize = 0;
    while i < pieces.len()
        invariant
            i <= pieces@.len(),
            sv == crate::strutil::seq_views(pieces@),
            dot@ == seq!['.'],
            dotdot@ == seq!['.', '.'],
            named_segments(sv.take(i as int)) =~~= named_segments(sv).take(
                named_segments(sv.take(i as int)).len() as int,
            ),
            match last {
                Some(k) => k < i && named_segments(sv.take(i as int)).len() > 0 && sv[k as int]
                    == named_segments(sv.take(i as int)).last() && sv[k as int].len() > 0
                    && sv[k as int] != seq!['.'],
                None => named_segments(sv.take(i as int)).len() == 0,
            },
            traversal <==> exists|k: int|
                0 <= k < named_segments(sv.take(i as int)).len() && named_segments(
                    sv.take(i as int),
                )[k] == seq!['.', '.'],
        decreases pieces@.len() - i,
    {
        let piece = &pieces[i];
        let is_named = !piece.as_str().is_empty() && !piece.eq(&String::from_str(dot));
        proof {
            assert(sv.take(i as int + 1) =~~= sv.take(i as int).push(sv[i as int]));
            lemma_named_segments_concat(sv.take(i as int), seq![sv[i as int]]);
            assert(sv.take(i as int).push(sv[i as int]) =~~= sv.take(i as int) + seq![
                sv[i as int],
            ]);
            assert(seq![sv[i as int]].skip(1) =~~= Seq::<Seq<char>>::empty());
            assert(named_segments(Seq::<Seq<char>>::empty()) =~~= Seq::<Seq<char>>::empty());
            assert(seq![sv[i as int]][0] == sv[i as int]);
            if sv[i as int].len() > 0 && sv[i as int] != seq!['.'] {
                assert(named_segments(seq![sv[i as int]]) =~~= seq![sv[i as int]]);
            } else {
                assert(named_segments(seq![sv[i as int]]) =~~= Seq::<Seq<char>>::empty());
            }
        }
        if is_named {
            last = Some(i);
            let ghost old_named = named_segments(sv.take(i as int));
            let is_dotdot = piece.eq(&String::from_str(dotdot));
            if is_dotdot {
                traversal = true;
            }
            proof {
                let new_named = named_segments(sv.take(i as int + 1));
                assert(new_named =~~= old_named + seq![sv[i as int]]);
                assert(new_named.last() == sv[i as int]);
                assert(new_named =~~= named_segments(sv).take(new_named.len() as int)) by {
                    assert(named_segments(sv) =~~= named_segments(sv.take(i as int + 1))
                        + named_segments(sv.skip(i as int + 1))) by {
                        lemma_named_segments_concat(sv.take(i as int + 1), sv.skip(i as int + 1));
                        assert(sv.take(i as int + 1) + sv.skip(i as int + 1) =~~= sv);
                    }
                }
                assert(forall|k: int| 0 <= k < old_named.len() ==> #[trigger] new_named[k]
                    == old_named[k]);
                if is_dotdot {
                    assert(new_named[new_named.len() - 1] == seq!['.', '.']);
                    assert(exists|k: int|
                        0 <= k < new_named.len() && #[trigger] new_named[k] == seq!['.', '.']);
                } else {
                    if traversal {
                        let k0 = choose|k: int|
                            0 <= k < old_named.len() && #[trigger] old_named[k] == seq!['.', '.'];
                        assert(new_named[k0] == seq!['.', '.']);
                        assert(exists|k: int|
                            0 <= k < new_named.len() && #[trigger] new_named[k] == seq![
                                '.',
                                '.',
                            ]);
                    }
                    assert(sv[i as int] != seq!['.', '.']);
                    if exists|k: int|
                        0 <= k < new_named.len() && #[trigger] new_named[k] == seq!['.', '.'] {
                        let k = choose|k: int|
                            0 <= k < new_named.len() && #[trigger] new_named[k] == seq![
                                '.',
                                '.',
                            ];
                        assert(k < new_named.len() - 1);
                        assert(old_named[k] == seq!['.', '.']);
                    }
                }
            }
        } else {
            proof {
                assert(named_segments(sv.take(i as int + 1)) =~~= named_segments(
                    sv.take(i as int),
                ));
            }
        }
        i = i + 1;
    }
    proof {
        assert(sv.take(sv.len() as int) =~~= sv);
        assert(named_segments(sv).take(named_segments(sv).len() as int) =~~= named_segments(sv));
    }
    if traversal {
        proof {
            assert(has_parent_component(exec_path@));
        }
        return None;
    }
    match last {
        Some(k) => {
            proof {
                assert(path_segments(exec_path@).len() > 0);
                assert(!has_parent_component(exec_path@));
            }
            Some(pieces[k].clone())
        },
        None => {
            proof {
                assert(path_segments(exec_path@).len() == 0);
            }
            None
        },
    }
}

/// Joins `rel` below `base`; an absolute `rel` stands alone, as a filesystem
/// join would leave it.
pub fn join_path(base: &str, rel: &str) -> (r: String)
    ensures
        r@ == join_path_spec(base@, rel@),
{
    let slash = "/";
    proof {
        reveal_strlit("/");
        assert(slash@ =~= seq!['/']);
    }
    if rel.unicode_len() > 0 && rel.get_char(0) == '/' {
        rel.to_owned()
    } else {
        let mut r = base.to_owned();
        r.append(slash);
        r.append(rel);
        proof {
            assert(r@ =~= base@ + seq!['/'] + rel@);
        }
        r
    }
}

/// Resolves the executable path of a language-server spawn request.  For a
/// system server the path must reduce to a bare file name; otherwise the path
/// is resolved below the requesting plugin's installation directory, and a
/// request from a plugin with no known directory is refused.
pub fn resolve_exec_path(system_lsp: bool, exec_path: &str, plugin_dir: Option<&String>) -> (r:
    Option<String>)
    ensures
        match r {
            Some(resolved) => if system_lsp {
                system_exec_name_spec(exec_path@) == Some(resolved@)
            } else {
                plugin_dir is Some && resolved@ == join_path_spec(plugin_dir->0@, exec_path@)
            },
            None => if system_lsp {
                system_exec_name_spec(exec_path@) is None
            } else {
                plugin_dir is None
            },
        },
{
    if system_lsp {
        system_exec_name(exec_path)
    } else {
        match plugin_dir {
            Some(dir) => Some(join_path(dir.as_str(), exec_path)),
            None => None,
        }
    }
}

} // verus!
