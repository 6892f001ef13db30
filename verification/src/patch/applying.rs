//! Hunk application: relaxed line-window matching first, exact substring
//! splice as a fallback, with the input's trailing-newline property kept.
use vstd::prelude::*;

use crate::chars::{
    extend_chars, find_subseq, first_match, lemma_first_match, subrange_vec, to_chars,
    to_string_vec,
};
use crate::patch::text::{
    charlines_to_strings, charlines_view, find_lines_window, find_window_spec, join_newlines,
    join_nl, preview, preview_spec, split_newlines, split_nl, strings_to_charlines, window_at,
};
use crate::patch::{hunks_view, lines_view, Hunk, HunkV};

verus! {

/// The error text for a hunk whose old block cannot be found.
pub open spec fn hunk_miss_error(old_seg: Seq<char>) -> Seq<char> {
    seq![
        'h',
        'u',
        'n',
        'k',
        ' ',
        'o',
        'l',
        'd',
        ' ',
        't',
        'e',
        'x',
        't',
        ' ',
        'n',
        'o',
        't',
        ' ',
        'f',
        'o',
        'u',
        'n',
        'd',
        ':',
        ' ',
    ] + preview_spec(old_seg)
}

/// What applying one hunk to a text yields. An empty old block appends the
/// new lines as a fresh paragraph. Otherwise the old block is located by
/// relaxed line matching and replaced, the input's trailing newline kept; an
/// exact substring splice is the fallback; a miss is an error naming the old
/// block.
pub open spec fn apply_hunk_spec(before: Seq<char>, h: HunkV) -> Result<Seq<char>, Seq<char>> {
    if h.old_lines.len() == 0 {
        let base = if before.len() > 0 && before.last() != '\n' {
            before + seq!['\n']
        } else {
            before
        };
        Ok(base + join_nl(h.new_lines))
    } else {
        let old_seg = join_nl(h.old_lines);
        let new_seg = join_nl(h.new_lines);
        let before_lines = split_nl(before);
        let old_lines = split_nl(old_seg);
        let ends_nl = before.len() > 0 && before.last() == '\n';
        match find_window_spec(before_lines, old_lines) {
            Some(s) => {
                let spliced = join_nl(
                    before_lines.take(s) + h.new_lines + before_lines.skip(s + old_lines.len()),
                );
                Ok(
                    if ends_nl && !(spliced.len() > 0 && spliced.last() == '\n') {
                        spliced + seq!['\n']
                    } else {
                        spliced
                    },
                )
            },
            None => match first_match(before, old_seg) {
                Some(pos) => Ok(before.take(pos) + new_seg + before.skip(pos + old_seg.len() as int)),
                None => Err(hunk_miss_error(old_seg)),
            },
        }
    }
}

/// Append copies of the lines of `src` in positions `[from, to)` to `dst`.
fn push_line_copies(dst: &mut Vec<Vec<char>>, src: &Vec<Vec<char>>, from: usize, to: usize)
    requires
        from <= to <= src@.len(),
    ensures
        charlines_view(final(dst)@) == charlines_view(old(dst)@) + charlines_view(src@).subrange(
            from as int,
            to as int,
        ),
{
    let mut k: usize = from;
    proof {
        assert(charlines_view(dst@) =~= charlines_view(old(dst)@) + charlines_view(src@).subrange(
            from as int,
            from as int,
        ));
    }
    while k < to
        invariant
            from <= k <= to <= src@.len(),
            charlines_view(dst@) == charlines_view(old(dst)@) + charlines_view(src@).subrange(
                from as int,
                k as int,
            ),
        decreases to - k,
    {
        let ghost pre = charlines_view(dst@);
        dst.push(subrange_vec(src[k].as_slice(), 0, src[k].len()));
        proof {
            assert(dst@.last()@ =~= src@[k as int]@);
            assert(charlines_view(dst@) =~= pre.push(src@[k as int]@));
            assert(charlines_view(src@).subrange(from as int, k + 1) =~= charlines_view(
                src@,
            ).subrange(from as int, k as int).push(charlines_view(src@)[k as int]));
            assert(charlines_view(dst@) =~= charlines_view(old(dst)@) + charlines_view(
                src@,
            ).subrange(from as int, k + 1));
        }
        k = k + 1;
    }
}

/// Apply one hunk, as `apply_hunk_spec` describes.
pub fn apply_hunk(before: &str, h: &Hunk) -> (r: Result<String, String>)
    ensures
        match r {
            Ok(out) => apply_hunk_spec(before@, h@) == Ok::<Seq<char>, Seq<char>>(out@),
            Err(e) => apply_hunk_spec(before@, h@) == Err::<Seq<char>, Seq<char>>(e@),
        },
{
    let bv = to_chars(before);
    let new_lines_cv = strings_to_charlines(h.new_lines.as_slice());
    let new_seg = join_newlines(&new_lines_cv);
    if h.old_lines.len() == 0 {
        let ghost base = if before@.len() > 0 && before@.last() != '\n' {
            before@ + seq!['\n']
        } else {
            before@
        };
        let mut out = subrange_vec(bv.as_slice(), 0, bv.len());
        proof {
            assert(out@ =~= before@);
        }
        if out.len() > 0 && out[out.len() - 1] != '\n' {
            out.push('\n');
        }
        proof {
            assert(out@ =~= base);
        }
        extend_chars(&mut out, new_seg.as_slice());
        proof {
            assert(h@.old_lines.len() == 0);
            assert(out@ == base + join_nl(h@.new_lines));
        }
        return Ok(to_string_vec(out.as_slice()));
    }
    let old_lines_cv = strings_to_charlines(h.old_lines.as_slice());
    let old_seg = join_newlines(&old_lines_cv);
    let old_seg_str = to_string_vec(old_seg.as_slice());
    let before_lines = split_newlines(bv.as_slice());
    let before_lines_s = charlines_to_strings(&before_lines);
    let old_seg_lines = split_newlines(old_seg.as_slice());
    let old_seg_lines_s = charlines_to_strings(&old_seg_lines);
    let ends_nl = bv.len() > 0 && bv[bv.len() - 1] == '\n';

    match find_lines_window(before_lines_s.as_slice(), old_seg_lines_s.as_slice()) {
        Some((s, e)) => {
            proof {
                assert(window_at(
                    lines_view(before_lines_s@),
                    lines_view(old_seg_lines_s@),
                    s as int,
                ));
                assert(e <= before_lines@.len());
            }
            let mut spliced_lines: Vec<Vec<char>> = Vec::new();
            push_line_copies(&mut spliced_lines, &before_lines, 0, s);
            push_line_copies(&mut spliced_lines, &new_lines_cv, 0, new_lines_cv.len());
            push_line_copies(&mut spliced_lines, &before_lines, e, before_lines.len());
            let mut out = join_newlines(&spliced_lines);
            proof {
                let bl = split_nl(before@);
                let ol = split_nl(join_nl(h@.old_lines));
                assert(charlines_view(before_lines@) == bl);
                assert(charlines_view(old_seg_lines@) == ol);
                assert(charlines_view(spliced_lines@) =~= bl.take(s as int) + h@.new_lines
                    + bl.skip(s + ol.len()));
                assert(out@ == join_nl(bl.take(s as int) + h@.new_lines + bl.skip(s + ol.len())));
            }
            if ends_nl && !(out.len() > 0 && out[out.len() - 1] == '\n') {
                let ghost spliced = out@;
                out.push('\n');
                proof {
                    assert(out@ =~= spliced + seq!['\n']);
                }
            }
            proof {
                assert(apply_hunk_spec(before@, h@) == Ok::<Seq<char>, Seq<char>>(out@));
            }
            Ok(to_string_vec(out.as_slice()))
        },
        None => {
            match find_subseq(bv.as_slice(), old_seg.as_slice()) {
                Some(pos) => {
                    proof {
                        lemma_first_match(before@, join_nl(h@.old_lines));
                    }
                    let mut out = subrange_vec(bv.as_slice(), 0, pos);
                    extend_chars(&mut out, new_seg.as_slice());
                    extend_chars(
                        &mut out,
                        subrange_vec(bv.as_slice(), pos + old_seg.len(), bv.len()).as_slice(),
                    );
                    proof {
                        assert(out@ =~= before@.take(pos as int) + join_nl(h@.new_lines)
                            + before@.skip(pos + join_nl(h@.old_lines).len() as int));
                    }
                    Ok(to_string_vec(out.as_slice()))
                },
                None => {
                    let mut msg = String::new();
                    msg.append("hunk old text not found: ");
                    let pv = preview(old_seg_str.as_str());
                    msg.append(pv.as_str());
                    proof {
                        reveal_strlit("hunk old text not found: ");
                        assert(msg@ =~= hunk_miss_error(join_nl(h@.old_lines)));
                    }
                    Err(msg)
                },
            }
        },
    }
}

/// What applying every hunk in order yields: the final text and the indexed
/// errors of the hunks that missed; a miss leaves the text unchanged for the
/// hunks after it.
pub open spec fn apply_all_spec(text: Seq<char>, hunks: Seq<HunkV>, idx: int) -> (
    Seq<char>,
    Seq<(int, Seq<char>)>,
)
    decreases hunks.len(),
{
    if hunks.len() == 0 {
        (text, Seq::empty())
    } else {
        match apply_hunk_spec(text, hunks[0]) {
            Ok(next) => apply_all_spec(next, hunks.drop_first(), idx + 1),
            Err(e) => {
                let (t, errs) = apply_all_spec(text, hunks.drop_first(), idx + 1);
                (t, seq![(idx, e)] + errs)
            },
        }
    }
}

/// The views of an indexed error vector.
pub open spec fn errs_view(es: Seq<(usize, String)>) -> Seq<(int, Seq<char>)> {
    es.map_values(|p: (usize, String)| (p.0 as int, p.1@))
}

/// Apply every hunk in order; the result is the final text, or the indexed
/// error list when any hunk missed, as `apply_all_spec` describes.
pub fn apply_all_hunks(before: &str, hunks: &[Hunk]) -> (r: Result<String, Vec<(usize, String)>>)
    ensures
        ({
            let whole = apply_all_spec(before@, hunks_view(hunks@), 0);
            match r {
                Ok(out) => out@ == whole.0 && whole.1.len() == 0,
                Err(es) => es@.len() > 0 && errs_view(es@) == whole.1,
            }
        }),
{
    let mut text = String::new();
    text.append(before);
    proof {
        assert(text@ =~= before@);
    }
    let mut errors: Vec<(usize, String)> = Vec::new();
    let mut i: usize = 0;
    proof {
        let hv = hunks_view(hunks@);
        assert(hv.skip(0) =~= hv);
        assert(errs_view(errors@) =~= Seq::<(int, Seq<char>)>::empty());
        assert(apply_all_spec(before@, hv, 0).1 =~= errs_view(errors@) + apply_all_spec(
            text@,
            hv.skip(0),
            0,
        ).1);
    }
    while i < hunks.len()
        invariant
            i <= hunks@.len(),
            ({
                let whole = apply_all_spec(before@, hunks_view(hunks@), 0);
                let rest = apply_all_spec(text@, hunks_view(hunks@).skip(i as int), i as int);
                whole.0 == rest.0 && whole.1 == errs_view(errors@) + rest.1
            }),
        decreases hunks@.len() - i,
    {
        let ghost hv = hunks_view(hunks@);
        let ghost t0 = text@;
        let ghost errs0 = errors@;
        proof {
            assert(hv.skip(i as int)[0] == hv[i as int]);
            assert(hv.skip(i as int).drop_first() =~= hv.skip(i + 1));
            assert(hv[i as int] == hunks@[i as int]@);
        }
        match apply_hunk(text.as_str(), &hunks[i]) {
            Ok(next) => {
                text = next;
                proof {
                    assert(apply_all_spec(t0, hv.skip(i as int), i as int) == apply_all_spec(
                        text@,
                        hv.skip(i + 1),
                        i + 1,
                    ));
                }
            },
            Err(e) => {
                let ghost ev = e@;
                errors.push((i, e));
                proof {
                    let inner = apply_all_spec(t0, hv.skip(i + 1), i + 1);
                    assert(apply_all_spec(t0, hv.skip(i as int), i as int).1 == seq![
                        (i as int, ev),
                    ] + inner.1);
                    assert(errs_view(errors@) =~= errs_view(errs0).push((i as int, ev)));
                    assert(errs_view(errs0) + (seq![(i as int, ev)] + inner.1) =~= errs_view(
                        errors@,
                    ) + inner.1);
                }
            },
        }
        i = i + 1;
    }
    proof {
        let hv = hunks_view(hunks@);
        assert(hv.skip(hv.len() as int) =~= Seq::<HunkV>::empty());
        let whole = apply_all_spec(before@, hv, 0);
        assert(whole.1 =~= errs_view(errors@));
    }
    if errors.len() == 0 {
        proof {
            assert(errs_view(errors@) =~= Seq::<(int, Seq<char>)>::empty());
        }
        Ok(text)
    } else {
        proof {
            assert(errs_view(errors@).len() == errors@.len());
        }
        Err(errors)
    }
}

} // verus!
