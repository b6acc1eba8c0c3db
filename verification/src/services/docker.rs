//! Reading container listings out of docker's command output. One layout
//! is the `docker ps -a` table, whose second column names the image; the
//! other is a `--format` layout whose columns are separated by `:#:`.
//! Both skip the first output line.

use vstd::prelude::*;
use vstd::string::*;

use crate::sys::{line_has_two_tokens, line_t2e, line_t2s};
use crate::text::{
    find_char_from, find_non_space_from, find_space_from, find_str, first_char_from,
    lemma_first_char_from, lemma_first_non_space_from, lemma_first_space_from, lemma_spec_find_str,
    lemma_split_step, replace_str, spec_find_str, spec_replace, spec_split,
};

verus! {

/// The image name a `docker ps -a` line shows: its second column, cut to
/// the part between the first two slashes when it holds a slash, with
/// every colon turned into a space. A line without two columns shows none.
pub open spec fn spec_image_of(l: Seq<char>) -> Option<Seq<char>> {
    if !line_has_two_tokens(l) {
        None
    } else {
        let tok = l.subrange(line_t2s(l) as int, line_t2e(l) as int);
        let c1 = first_char_from(tok, '/', 0);
        let base = if c1 < tok.len() {
            tok.subrange(c1 + 1 as int, first_char_from(tok, '/', (c1 + 1) as nat) as int)
        } else {
            tok
        };
        Some(spec_replace(base, ":"@, " "@))
    }
}

/// The image names of a listing, in order.
pub open spec fn spec_docker_images(lines: Seq<Seq<char>>) -> Seq<Seq<char>>
    decreases lines.len(),
{
    if lines.len() == 0 {
        Seq::empty()
    } else {
        (match spec_image_of(lines[0]) {
            Some(x) => seq![x],
            None => Seq::<Seq<char>>::empty(),
        }) + spec_docker_images(lines.drop_first())
    }
}

proof fn lemma_docker_images_push(lines: Seq<Seq<char>>, l: Seq<char>)
    ensures
        spec_docker_images(lines.push(l)) == spec_docker_images(lines) + (
        match spec_image_of(l) {
            Some(x) => seq![x],
            None => Seq::<Seq<char>>::empty(),
        }),
    decreases lines.len(),
{
    if lines.len() == 0 {
        reveal_with_fuel(spec_docker_images, 2);
        assert(lines.push(l)[0] == l);
        assert(lines.push(l).drop_first() =~~= Seq::<Seq<char>>::empty());
        assert(spec_docker_images(lines.push(l)) =~~= spec_docker_images(lines) + (
        match spec_image_of(l) {
            Some(x) => seq![x],
            None => Seq::<Seq<char>>::empty(),
        }));
    } else {
        assert(lines.push(l)[0] == lines[0]);
        assert(lines.push(l).drop_first() =~~= lines.drop_first().push(l));
        lemma_docker_images_push(lines.drop_first(), l);
        assert(spec_docker_images(lines.push(l)) =~~= spec_docker_images(lines) + (
        match spec_image_of(l) {
            Some(x) => seq![x],
            None => Seq::<Seq<char>>::empty(),
        }));
    }
}

fn docker_image_of(line: &str) -> (r: Option<String>)
    ensures
        r.deep_view() == spec_image_of(line@),
{
    let n: usize = line.unicode_len();
    let t1s: usize = find_non_space_from(line, 0);
    proof {
        lemma_first_non_space_from(line@, 0);
    }
    if t1s >= n {
        return None;
    }
    let t1e: usize = find_space_from(line, t1s);
    proof {
        lemma_first_space_from(line@, t1s as nat);
    }
    let t2s: usize = find_non_space_from(line, t1e);
    proof {
        lemma_first_non_space_from(line@, t1e as nat);
    }
    if t2s >= n {
        return None;
    }
    let t2e: usize = find_space_from(line, t2s);
    proof {
        lemma_first_space_from(line@, t2s as nat);
        reveal_strlit(":");
        assert(":"@.len() == 1);
    }
    let tok: &str = line.substring_char(t2s, t2e);
    let m: usize = tok.unicode_len();
    let c1: usize = find_char_from(tok, '/', 0);
    proof {
        lemma_first_char_from(tok@, '/', 0);
    }
    let base: &str = if c1 < m {
        let c2: usize = find_char_from(tok, '/', c1 + 1);
        proof {
            lemma_first_char_from(tok@, '/', (c1 + 1) as nat);
        }
        tok.substring_char(c1 + 1, c2)
    } else {
        tok
    };
    Some(replace_str(base, ":", " "))
}

/// Reads the image names out of a `docker ps -a` table, skipping the
/// header line and every line without two columns.
pub fn parse_docker_ps(s: &str) -> (r: Vec<String>)
    requires
        s@.len() < usize::MAX,
    ensures
        r.deep_view() == spec_docker_images(spec_split(s@, '\n').drop_first()),
{
    let ghost all_lines = spec_split(s@, '\n');
    let n: usize = s.unicode_len();
    let mut out: Vec<String> = Vec::new();
    let ghost mut done: Seq<Seq<char>> = Seq::empty();
    let mut i: usize = 0;
    let mut header: bool = true;
    proof {
        assert(s@.skip(0) =~= s@);
        assert(done + spec_split(s@.skip(0), '\n') =~= all_lines);
    }
    while i <= n
        invariant
            i <= n + 1,
            n == s@.len(),
            n < usize::MAX,
            all_lines == spec_split(s@, '\n'),
            i <= n ==> done + spec_split(s@.skip(i as int), '\n') == all_lines,
            i == n + 1 ==> done == all_lines,
            header == (done.len() == 0),
            done.len() == 0 ==> out.deep_view() == Seq::<Seq<char>>::empty(),
            done.len() > 0 ==> out.deep_view() == spec_docker_images(done.drop_first()),
        decreases n + 1 - i,
    {
        let j: usize = find_char_from(s, '\n', i);
        proof {
            lemma_first_char_from(s@, '\n', i as nat);
        }
        let line: &str = s.substring_char(i, j);
        if header {
            header = false;
        } else {
            proof {
                lemma_docker_images_push(done.drop_first(), line@);
                assert(done.push(line@).drop_first() =~~= done.drop_first().push(line@));
            }
            match docker_image_of(line) {
                Some(img) => {
                    out.push(img);
                    proof {
                        assert(out.deep_view() =~~= spec_docker_images(
                            done.push(line@).drop_first(),
                        ));
                    }
                },
                None => {
                    proof {
                        assert(out.deep_view() =~~= spec_docker_images(
                            done.push(line@).drop_first(),
                        ));
                    }
                },
            }
        }
        proof {
            lemma_split_step(s@, i as nat, j as nat, '\n');
            done = done.push(line@);
            if done.len() == 1 {
                assert(done.drop_first() =~~= Seq::<Seq<char>>::empty());
            }
        }
        i = j + 1;
        proof {
            if i <= n {
                assert(done + spec_split(s@.skip(i as int), '\n') =~= all_lines);
            } else {
                assert(done =~= all_lines);
            }
        }
    }
    out
}

/// The image and status a `--format` line shows: the text before the
/// first `:#:` and the text between the first and second. A line without
/// the separator shows none.
pub open spec fn spec_status_pair_of(l: Seq<char>) -> Option<(Seq<char>, Seq<char>)> {
    let f = spec_find_str(l, ":#:"@);
    if f < 0 {
        None
    } else {
        let rest = l.skip(f + 3);
        let f2 = spec_find_str(rest, ":#:"@);
        let second = if f2 < 0 {
            rest
        } else {
            rest.take(f2)
        };
        Some((l.take(f), second))
    }
}

/// The image/status pairs of a listing, in order.
pub open spec fn spec_docker_pairs(lines: Seq<Seq<char>>) -> Seq<(Seq<char>, Seq<char>)>
    decreases lines.len(),
{
    if lines.len() == 0 {
        Seq::empty()
    } else {
        (match spec_status_pair_of(lines[0]) {
            Some(x) => seq![x],
            None => Seq::<(Seq<char>, Seq<char>)>::empty(),
        }) + spec_docker_pairs(lines.drop_first())
    }
}

proof fn lemma_docker_pairs_push(lines: Seq<Seq<char>>, l: Seq<char>)
    ensures
        spec_docker_pairs(lines.push(l)) == spec_docker_pairs(lines) + (
        match spec_status_pair_of(l) {
            Some(x) => seq![x],
            None => Seq::<(Seq<char>, Seq<char>)>::empty(),
        }),
    decreases lines.len(),
{
    if lines.len() == 0 {
        reveal_with_fuel(spec_docker_pairs, 2);
        assert(lines.push(l)[0] == l);
        assert(lines.push(l).drop_first() =~~= Seq::<Seq<char>>::empty());
        assert(spec_docker_pairs(lines.push(l)) =~~= spec_docker_pairs(lines) + (
        match spec_status_pair_of(l) {
            Some(x) => seq![x],
            None => Seq::<(Seq<char>, Seq<char>)>::empty(),
        }));
    } else {
        assert(lines.push(l)[0] == lines[0]);
        assert(lines.push(l).drop_first() =~~= lines.drop_first().push(l));
        lemma_docker_pairs_push(lines.drop_first(), l);
        assert(spec_docker_pairs(lines.push(l)) =~~= spec_docker_pairs(lines) + (
        match spec_status_pair_of(l) {
            Some(x) => seq![x],
            None => Seq::<(Seq<char>, Seq<char>)>::empty(),
        }));
    }
}

fn docker_status_pair_of(line: &str) -> (r: Option<(String, String)>)
    ensures
        match r {
            Some(pr) => spec_status_pair_of(line@) == Some((pr.0@, pr.1@)),
            None => spec_status_pair_of(line@).is_none(),
        },
{
    proof {
        reveal_strlit(":#:");
        assert(":#:"@.len() == 3);
        lemma_spec_find_str(line@, ":#:"@);
    }
    let n: usize = line.unicode_len();
    let f: usize = match find_str(line, ":#:") {
        Some(f) => f,
        None => {
            return None;
        },
    };
    proof {
        let sf = spec_find_str(line@, ":#:"@);
        assert(sf >= 0);
        assert(sf == f);
    }
    let first: &str = line.substring_char(0, f);
    let rest: &str = line.substring_char(f + 3, n);
    proof {
        assert(line@.subrange(0, f as int) =~= line@.take(f as int));
        assert(line@.subrange(f + 3, n as int) =~= line@.skip(f + 3));
        lemma_spec_find_str(rest@, ":#:"@);
    }
    let second: &str = match find_str(rest, ":#:") {
        Some(f2) => {
            proof {
                let sf2 = spec_find_str(rest@, ":#:"@);
                assert(sf2 >= 0);
                assert(sf2 == f2);
                assert(rest@.subrange(0, f2 as int) =~= rest@.take(f2 as int));
            }
            rest.substring_char(0, f2)
        },
        None => rest,
    };
    Some((String::from_str(first), String::from_str(second)))
}

/// Reads the image/status pairs out of a `--format` listing, skipping the
/// first line and every line without the `:#:` separator.
pub fn parse_docker_status(s: &str) -> (r: Vec<(String, String)>)
    requires
        s@.len() < usize::MAX,
    ensures
        r@.map_values(|pr: (String, String)| (pr.0@, pr.1@)) == spec_docker_pairs(
            spec_split(s@, '\n').drop_first(),
        ),
{
    let ghost all_lines = spec_split(s@, '\n');
    let n: usize = s.unicode_len();
    let mut out: Vec<(String, String)> = Vec::new();
    let ghost mut done: Seq<Seq<char>> = Seq::empty();
    let mut i: usize = 0;
    let mut header: bool = true;
    proof {
        assert(s@.skip(0) =~= s@);
        assert(done + spec_split(s@.skip(0), '\n') =~= all_lines);
    }
    while i <= n
        invariant
            i <= n + 1,
            n == s@.len(),
            n < usize::MAX,
            all_lines == spec_split(s@, '\n'),
            i <= n ==> done + spec_split(s@.skip(i as int), '\n') == all_lines,
            i == n + 1 ==> done == all_lines,
            header == (done.len() == 0),
            done.len() == 0 ==> out@.map_values(|pr: (String, String)| (pr.0@, pr.1@)) == Seq::<
                (Seq<char>, Seq<char>),
            >::empty(),
            done.len() > 0 ==> out@.map_values(|pr: (String, String)| (pr.0@, pr.1@))
                == spec_docker_pairs(done.drop_first()),
        decreases n + 1 - i,
    {
        let j: usize = find_char_from(s, '\n', i);
        proof {
            lemma_first_char_from(s@, '\n', i as nat);
        }
        let line: &str = s.substring_char(i, j);
        if header {
            header = false;
        } else {
            proof {
                lemma_docker_pairs_push(done.drop_first(), line@);
                assert(done.push(line@).drop_first() =~~= done.drop_first().push(line@));
            }
            match docker_status_pair_of(line) {
                Some(pair) => {
                    out.push(pair);
                    proof {
                        assert(out@.map_values(|pr: (String, String)| (pr.0@, pr.1@))
                            =~= spec_docker_pairs(done.push(line@).drop_first()));
                    }
                },
                None => {
                    proof {
                        assert(out@.map_values(|pr: (String, String)| (pr.0@, pr.1@))
                            =~= spec_docker_pairs(done.push(line@).drop_first()));
                    }
                },
            }
        }
        proof {
            lemma_split_step(s@, i as nat, j as nat, '\n');
            done = done.push(line@);
            if done.len() == 1 {
                assert(done.drop_first() =~~= Seq::<Seq<char>>::empty());
            }
        }
        i = j + 1;
        proof {
            if i <= n {
                assert(done + spec_split(s@.skip(i as int), '\n') =~= all_lines);
            } else {
                assert(done =~= all_lines);
            }
        }
    }
    proof {
        assert(out@.map_values(|pr: (String, String)| (pr.0@, pr.1@)) =~= spec_docker_pairs(
            all_lines.drop_first(),
        ));
    }
    out
}

} // verus!
