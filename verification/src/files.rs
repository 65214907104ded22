//! Assembling the list of files a command should check, out of
//! explicitly named files and raw lines read from a list file or a
//! pipe.

use vstd::prelude::*;

use crate::blame::trim;
use crate::file_cache::dedup_spec;
use crate::file_cache::dedup_strings;
use crate::text::chars_to_string;
use crate::text::str_views;
use crate::text::to_chars;

verus! {

/// Raw lines reduced to file names: each line is trimmed and blank
/// lines are dropped.
pub open spec fn cleaned_lines(lines: Seq<Seq<char>>) -> Seq<Seq<char>>
    decreases lines.len(),
{
    if lines.len() == 0 {
        Seq::empty()
    } else {
        let rest = cleaned_lines(lines.drop_last());
        if trim(lines.last()).len() > 0 {
            rest.push(trim(lines.last()))
        } else {
            rest
        }
    }
}

/// The file filter that the given sources denote: the explicitly
/// named files as they stand, then the trimmed non-blank lines, with
/// duplicates removed.
pub open spec fn file_filter_spec(args: Seq<Seq<char>>, lines: Seq<Seq<char>>) -> Seq<Seq<char>> {
    dedup_spec(args + cleaned_lines(lines))
}

/// Builds the file filter for a command: the explicitly named files
/// are taken as given, each raw line is trimmed and dropped when
/// blank, duplicates are removed, and `None` means no filtering was
/// requested at all.
pub fn collect_file_filter(files: Option<Vec<String>>, extra_lines: Vec<String>) -> (r: Option<
    Vec<String>,
>)
    ensures
        ({
            let args = match files {
                Some(f) => str_views(f@),
                None => Seq::<Seq<char>>::empty(),
            };
            let want = file_filter_spec(args, str_views(extra_lines@));
            match r {
                Some(v) => str_views(v@) == want && v@.len() > 0,
                None => want.len() == 0,
            }
        }),
{
    let ghost args_view = match &files {
        Some(f) => str_views(f@),
        None => Seq::<Seq<char>>::empty(),
    };
    let mut combined: Vec<String> = match files {
        Some(f) => f,
        None => Vec::new(),
    };
    proof {
        assert(args_view == match files {
            Some(f) => str_views(f@),
            None => Seq::<Seq<char>>::empty(),
        });
    }
    proof {
        assert(str_views(combined@) =~= args_view);
        assert(str_views(extra_lines@).take(0) =~= Seq::<Seq<char>>::empty());
        assert(str_views(combined@) =~= args_view + cleaned_lines(
            str_views(extra_lines@).take(0),
        ));
    }
    let ghost lv = str_views(extra_lines@);
    let n: usize = extra_lines.len();
    let mut i: usize = 0;
    while i < n
        invariant
            i <= n,
            n == extra_lines@.len(),
            lv == str_views(extra_lines@),
            str_views(combined@) == args_view + cleaned_lines(lv.take(i as int)),
        decreases n - i,
    {
        proof {
            assert(lv.take(i + 1 as int).drop_last() =~= lv.take(i as int));
            assert(lv.take(i + 1 as int).last() == lv[i as int]);
            assert(lv[i as int] == extra_lines@[i as int]@);
        }
        let lc = to_chars(extra_lines[i].as_str());
        let t = crate::blame::trim_chars(&lc);
        let ghost old_combined = combined@;
        if t.len() > 0 {
            combined.push(chars_to_string(&t));
            proof {
                assert(str_views(combined@) =~= str_views(old_combined).push(trim(
                    lv[i as int],
                )));
            }
        }
        i = i + 1;
    }
    proof {
        assert(lv.take(n as int) =~= lv);
    }
    let deduped = dedup_strings(combined);
    if deduped.len() == 0 {
        None
    } else {
        Some(deduped)
    }
}

} // verus!
