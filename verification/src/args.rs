use vstd::prelude::*;
use vstd::string::*;

use crate::paths::{
    discovered, file_name_index, file_name_of, lemma_file_name_start_bounds, parent_dir, parent_of,
    path_join, path_join_seq, png_name, rename_svg_to_png, segments, view_wf, yaml_selected,
    PathKind,
};

verus! {

/// One unit of rendering work: a source path, a destination path, and the
/// scale factor to render at.
#[derive(Debug)]
pub struct SvgRenderJob {
    pub from: String,
    pub to: String,
    pub scale: u32,
}

/// Mathematical model of a job.
pub ghost struct JobV {
    pub from: Seq<char>,
    pub to: Seq<char>,
    pub scale: u32,
}

impl View for SvgRenderJob {
    type V = JobV;

    open spec fn view(&self) -> JobV {
        JobV { from: self.from@, to: self.to@, scale: self.scale }
    }
}

impl PartialEq for SvgRenderJob {
    fn eq(&self, other: &Self) -> (r: bool) {
        let f = self.from == other.from;
        let t = self.to == other.to;
        let s = self.scale == other.scale;
        f && t && s
    }
}

impl vstd::std_specs::cmp::PartialEqSpecImpl for SvgRenderJob {
    open spec fn obeys_eq_spec() -> bool {
        true
    }

    open spec fn eq_spec(&self, other: &Self) -> bool {
        self@ == other@
    }
}

impl Eq for SvgRenderJob {

}

// ---------------------------------------------------------------------------
// The scale-qualified directory name "{scale}.0x".
// ---------------------------------------------------------------------------

/// The character of a decimal digit.
pub open spec fn digit(d: int) -> char {
    if d == 0 {
        '0'
    } else if d == 1 {
        '1'
    } else if d == 2 {
        '2'
    } else if d == 3 {
        '3'
    } else if d == 4 {
        '4'
    } else if d == 5 {
        '5'
    } else if d == 6 {
        '6'
    } else if d == 7 {
        '7'
    } else if d == 8 {
        '8'
    } else {
        '9'
    }
}

/// The decimal digits of a number, most significant first.
pub open spec fn dec_str(n: int) -> Seq<char>
    decreases n,
{
    if n < 10 {
        seq![digit(n)]
    } else {
        dec_str(n / 10).push(digit(n % 10))
    }
}

/// The name of the subdirectory that holds output rendered at a scale:
/// the scale's decimal digits followed by ".0x".
pub open spec fn scale_dir(scale: u32) -> Seq<char> {
    dec_str(scale as int) + seq!['.', '0', 'x']
}

fn digit_str(d: u32) -> (r: &'static str)
    requires
        d < 10,
    ensures
        r@ == seq![digit(d as int)],
{
    proof {
        reveal_strlit("0");
        reveal_strlit("1");
        reveal_strlit("2");
        reveal_strlit("3");
        reveal_strlit("4");
        reveal_strlit("5");
        reveal_strlit("6");
        reveal_strlit("7");
        reveal_strlit("8");
        reveal_strlit("9");
    }
    let r: &'static str = if d == 0 {
        "0"
    } else if d == 1 {
        "1"
    } else if d == 2 {
        "2"
    } else if d == 3 {
        "3"
    } else if d == 4 {
        "4"
    } else if d == 5 {
        "5"
    } else if d == 6 {
        "6"
    } else if d == 7 {
        "7"
    } else if d == 8 {
        "8"
    } else {
        "9"
    };
    proof {
        assert(r@ =~= seq![digit(d as int)]);
    }
    r
}

/// The digit characters of a digit list read back to front.
spec fn rev_chars(ds: Seq<u32>) -> Seq<char> {
    Seq::new(ds.len(), |i: int| digit(ds[ds.len() - 1 - i] as int))
}

/// Builds the "{scale}.0x" directory name.
pub fn scale_dir_name(scale: u32) -> (r: String)
    ensures
        r@ == scale_dir(scale),
{
    let mut digits: Vec<u32> = Vec::new();
    let mut m: u32 = scale;
    while m >= 10
        invariant
            dec_str(scale as int) == dec_str(m as int) + rev_chars(digits@),
            forall|k: int| 0 <= k < digits@.len() ==> digits@[k] < 10,
        decreases m,
    {
        let ghost pre = digits@;
        digits.push(m % 10);
        proof {
            assert(rev_chars(digits@) =~= seq![digit((m % 10) as int)] + rev_chars(pre));
            assert(dec_str(m as int) + rev_chars(pre) =~= dec_str((m / 10) as int) + rev_chars(
                digits@,
            ));
        }
        m = m / 10;
    }
    let ghost pre = digits@;
    digits.push(m);
    proof {
        assert(rev_chars(digits@) =~= seq![digit(m as int)] + rev_chars(pre));
        assert(dec_str(scale as int) =~= rev_chars(digits@));
    }
    let mut r = String::new();
    let n: usize = digits.len();
    let mut j: usize = n;
    while j > 0
        invariant
            j <= n,
            n == digits@.len(),
            forall|k: int| 0 <= k < digits@.len() ==> digits@[k] < 10,
            r@ == rev_chars(digits@).take(n - j),
        decreases j,
    {
        let d: u32 = digits[j - 1];
        r.append(digit_str(d));
        proof {
            assert(rev_chars(digits@).take(n - j + 1) =~= rev_chars(digits@).take(n - j).push(
                digit(digits@[j - 1] as int),
            ));
            assert(r@ =~= rev_chars(digits@).take(n - j + 1));
        }
        j = j - 1;
    }
    proof {
        assert(rev_chars(digits@).take(n as int) =~= rev_chars(digits@));
    }
    r.append(".0x");
    proof {
        reveal_strlit(".0x");
        assert(r@ =~= scale_dir(scale));
    }
    r
}

// ---------------------------------------------------------------------------
// Destination computation for one (source, scale) pair.
// ---------------------------------------------------------------------------

/// The destination before any scale qualification: under a directory output,
/// the renamed file name joined to the directory; under a file output, the
/// output path itself.
pub open spec fn base_dest(src: Seq<char>, out: Seq<char>, out_is_dir: bool) -> Seq<char> {
    if out_is_dir {
        path_join_seq(out, file_name_of(png_name(src)))
    } else {
        out
    }
}

/// The destination of one job. Scale 1 writes to the unqualified
/// destination; any other scale relocates the file into the scale-qualified
/// subdirectory beside it.
pub open spec fn job_dest(src: Seq<char>, out: Seq<char>, out_is_dir: bool, scale: u32) -> Seq<
    char,
> {
    let base = base_dest(src, out, out_is_dir);
    if scale == 1 {
        base
    } else {
        path_join_seq(path_join_seq(parent_of(base), scale_dir(scale)), file_name_of(base))
    }
}

/// The job planned for one (source, scale) pair.
pub open spec fn job_of(src: Seq<char>, out: Seq<char>, out_is_dir: bool, scale: u32) -> JobV {
    JobV { from: src, to: job_dest(src, out, out_is_dir, scale), scale }
}

/// Plans one (source, scale) pair: renames the source's extension to "png",
/// places the result under a directory output, and relocates it into the
/// "{scale}.0x" subdirectory when the scale is not 1.
pub fn map_single(input: &String, output: &String, output_is_dir: bool, scale: u32) -> (r:
    SvgRenderJob)
    requires
        file_name_of(input@).len() > 0,
        !output_is_dir && scale != 1 ==> file_name_of(output@).len() > 0,
    ensures
        r@ == job_of(input@, output@, output_is_dir, scale),
{
    let temp = rename_svg_to_png(input.clone());
    let ti: usize = file_name_index(temp.as_str());
    let tn: usize = temp.as_str().unicode_len();
    proof {
        lemma_file_name_start_bounds(temp@);
    }
    let name = temp.as_str().substring_char(ti, tn).to_owned();
    proof {
        assert(name@ =~= file_name_of(png_name(input@)));
    }
    let base: String = if output_is_dir {
        path_join(output.as_str(), name.as_str())
    } else {
        output.clone()
    };
    proof {
        assert(base@ == base_dest(input@, output@, output_is_dir));
    }
    if scale != 1 {
        let par = parent_dir(base.as_str());
        let sdir = scale_dir_name(scale);
        let step = path_join(par.as_str(), sdir.as_str());
        let bi: usize = file_name_index(base.as_str());
        let bn: usize = base.as_str().unicode_len();
        proof {
            lemma_file_name_start_bounds(base@);
        }
        let bname = base.as_str().substring_char(bi, bn).to_owned();
        proof {
            assert(bname@ =~= file_name_of(base@));
        }
        let dest = path_join(step.as_str(), bname.as_str());
        SvgRenderJob { from: input.clone(), to: dest, scale }
    } else {
        SvgRenderJob { from: input.clone(), to: base, scale }
    }
}

// ---------------------------------------------------------------------------
// The plan: one job per (source, scale) pair, scale varying fastest.
// ---------------------------------------------------------------------------

/// The jobs planned for one source, in scale order.
pub open spec fn plan_for_source(
    src: Seq<char>,
    scales: Seq<u32>,
    out: Seq<char>,
    out_is_dir: bool,
) -> Seq<JobV> {
    scales.map_values(|sc: u32| job_of(src, out, out_is_dir, sc))
}

/// The full plan: the cross product of sources and scales in source-major
/// order, each pair mapped to its job.
pub open spec fn plan_seq(
    sources: Seq<Seq<char>>,
    scales: Seq<u32>,
    out: Seq<char>,
    out_is_dir: bool,
) -> Seq<JobV>
    decreases sources.len(),
{
    if sources.len() == 0 {
        Seq::empty()
    } else {
        plan_seq(sources.drop_last(), scales, out, out_is_dir) + plan_for_source(
            sources.last(),
            scales,
            out,
            out_is_dir,
        )
    }
}

/// The plan holds one job per (source, scale) pair.
pub proof fn lemma_plan_len(sources: Seq<Seq<char>>, scales: Seq<u32>, out: Seq<char>, odir: bool)
    ensures
        plan_seq(sources, scales, out, odir).len() == sources.len() * scales.len(),
    decreases sources.len(),
{
    if sources.len() == 0 {
        assert(sources.len() * scales.len() == 0);
    } else {
        lemma_plan_len(sources.drop_last(), scales, out, odir);
        assert((sources.len() - 1) * scales.len() + scales.len() == sources.len() * scales.len())
            by (nonlinear_arith);
    }
}

/// A segment of the form "{N}.0x" for some number N.
pub open spec fn is_scale_segment(seg: Seq<char>) -> bool {
    exists|n: int| 0 <= n && seg == dec_str(n) + seq!['.', '0', 'x']
}

proof fn lemma_dec_str_shape(n: int)
    ensures
        dec_str(n).len() >= 1,
        forall|k: int| 0 <= k < dec_str(n).len() ==> #[trigger] dec_str(n)[k] != '/',
    decreases n,
{
    if n < 10 {
    } else {
        lemma_dec_str_shape(n / 10);
        assert forall|k: int| 0 <= k < dec_str(n).len() implies #[trigger] dec_str(n)[k]
            != '/' by {
            if k < dec_str(n).len() - 1 {
                assert(dec_str(n)[k] == dec_str(n / 10)[k]);
            }
        }
    }
}

/// A scale segment is at least four characters and ends in 'x'.
proof fn lemma_scale_segment_shape(seg: Seq<char>)
    requires
        is_scale_segment(seg),
    ensures
        seg.len() >= 4,
        seg.last() == 'x',
{
    let n = choose|n: int| 0 <= n && seg == dec_str(n) + seq!['.', '0', 'x'];
    lemma_dec_str_shape(n);
    assert(seg.last() == (seq!['.', '0', 'x'])[2]);
}

proof fn lemma_scale_dir_shape(scale: u32)
    ensures
        is_scale_segment(scale_dir(scale)),
        scale_dir(scale).len() >= 4,
        scale_dir(scale).last() == 'x',
        forall|k: int| 0 <= k < scale_dir(scale).len() ==> #[trigger] scale_dir(scale)[k] != '/',
{
    let sd = scale_dir(scale);
    assert(0 <= scale as int && sd == dec_str(scale as int) + seq!['.', '0', 'x']);
    lemma_scale_segment_shape(sd);
    lemma_dec_str_shape(scale as int);
    let tail = seq!['.', '0', 'x'];
    assert(tail[0] == '.' && tail[1] == '0' && tail[2] == 'x');
    assert forall|k: int| 0 <= k < sd.len() implies #[trigger] sd[k] != '/' by {
        if k < dec_str(scale as int).len() {
            assert(sd[k] == dec_str(scale as int)[k]);
        } else {
            assert(sd[k] == tail[k - dec_str(scale as int).len()]);
            let t = k - dec_str(scale as int).len();
            if t == 0 {
            } else if t == 1 {
            } else {
                assert(t == 2);
            }
        }
    }
}

/// Scale qualification in a destination path. At the identity scale the
/// destination holds no "{N}.0x" segment (provided neither the output target
/// nor the file name holds one); at any other scale it holds exactly one,
/// the job's own "{scale}.0x", immediately before the file name.
pub proof fn lemma_scale_segments(src: Seq<char>, out: Seq<char>, odir: bool, scale: u32)
    requires
        file_name_of(src).len() > 0,
        !odir ==> file_name_of(out).len() > 0,
        forall|q: int|
            0 <= q < segments(out).len() ==> !is_scale_segment(#[trigger] segments(out)[q]),
    ensures
        scale == 1 ==> forall|q: int|
            0 <= q < segments(job_dest(src, out, odir, scale)).len() ==> !is_scale_segment(
                #[trigger] segments(job_dest(src, out, odir, scale))[q],
            ),
        scale != 1 ==> ({
            let ss = segments(job_dest(src, out, odir, scale));
            &&& ss.len() >= 2
            &&& ss[ss.len() - 2] == scale_dir(scale)
            &&& ss.last() == file_name_of(base_dest(src, out, odir))
            &&& forall|q: int|
                0 <= q < ss.len() && q != ss.len() - 2 ==> !is_scale_segment(#[trigger] ss[q])
        }),
{
    let base = base_dest(src, out, odir);
    let pname = file_name_of(png_name(src));
    crate::paths::lemma_extension_replacement(src);
    crate::paths::lemma_file_name_no_slash(png_name(src));
    crate::paths::lemma_segments_last(out);
    if odir {
        crate::paths::lemma_segments_join(out, pname);
        crate::paths::lemma_file_name_join(out, pname);
    }
    let bname = file_name_of(base);
    assert(bname.len() > 0);
    // the file name of the base destination is never a scale segment: it
    // either ends in 'g' or is a segment of the output target
    assert(!is_scale_segment(bname)) by {
        if is_scale_segment(bname) {
            lemma_scale_segment_shape(bname);
            if odir {
                assert(bname.last() == 'g');
            } else {
                assert(bname == segments(out).last());
            }
        }
    }
    // every segment of the base destination is not a scale segment
    assert(forall|q: int|
        0 <= q < segments(base).len() ==> !is_scale_segment(#[trigger] segments(base)[q])) by {
        crate::paths::lemma_segments_last(base);
        if odir {
            assert forall|q: int| 0 <= q < segments(base).len() implies !is_scale_segment(
                #[trigger] segments(base)[q],
            ) by {
                if q < segments(base).len() - 1 {
                    assert(crate::paths::seg_in(segments(base)[q], segments(out)));
                    let t = choose|t: int|
                        0 <= t < segments(out).len() && segments(base)[q] == segments(out)[t];
                    assert(!is_scale_segment(segments(out)[t]));
                } else {
                    assert(segments(base)[q] == pname);
                }
            }
        }
    }
    if scale == 1 {
        assert(job_dest(src, out, odir, scale) == base);
    } else {
        let par = parent_of(base);
        let sdir = scale_dir(scale);
        lemma_scale_dir_shape(scale);
        crate::paths::lemma_file_name_no_slash(base);
        let step = path_join_seq(par, sdir);
        crate::paths::lemma_segments_join(par, sdir);
        crate::paths::lemma_segments_parent(base);
        crate::paths::lemma_segments_last(base);
        crate::paths::lemma_file_name_start_bounds(base);
        // every segment of the parent is not a scale segment
        assert(forall|q: int|
            0 <= q < segments(par).len() ==> !is_scale_segment(#[trigger] segments(par)[q])) by {
            if crate::paths::file_name_start(base) >= 2 {
                assert forall|q: int| 0 <= q < segments(par).len() implies !is_scale_segment(
                    #[trigger] segments(par)[q],
                ) by {
                    assert(segments(par)[q] == segments(base)[q]);
                }
            } else {
                assert forall|q: int| 0 <= q < segments(par).len() implies !is_scale_segment(
                    #[trigger] segments(par)[q],
                ) by {
                    if is_scale_segment(segments(par)[q]) {
                        lemma_scale_segment_shape(segments(par)[q]);
                    }
                }
            }
        }
        // step ends with the scale directory, so it has no trailing separator
        assert(step.len() > 0 && step.last() != '/') by {
            assert(step.last() == sdir.last());
        }
        crate::paths::lemma_segments_join(step, bname);
        let ss = segments(job_dest(src, out, odir, scale));
        assert(ss == segments(step).push(bname));
        assert(ss[ss.len() - 2] == segments(step).last());
        assert(segments(step).last() == sdir);
        assert forall|q: int| 0 <= q < ss.len() && q != ss.len() - 2 implies !is_scale_segment(
            #[trigger] ss[q],
        ) by {
            if q == ss.len() - 1 {
                assert(ss[q] == bname);
            } else {
                assert(ss[q] == segments(step)[q]);
                assert(crate::paths::seg_in(segments(step)[q], segments(par)));
                let t = choose|t: int|
                    0 <= t < segments(par).len() && segments(step)[q] == segments(par)[t];
                assert(!is_scale_segment(segments(par)[t]));
            }
        }
    }
}

/// Planning a single source against a single explicit (non-directory) output
/// file at the identity scale yields exactly one job whose destination is the
/// given output path, unchanged.
pub proof fn lemma_single_file_identity(src: Seq<char>, out: Seq<char>)
    ensures
        plan_seq(seq![src], seq![1u32], out, false) == seq![
            JobV { from: src, to: out, scale: 1u32 },
        ],
{
    let sources = seq![src];
    assert(sources.last() == src);
    assert(sources.drop_last() =~= Seq::<Seq<char>>::empty());
    assert(plan_seq(sources.drop_last(), seq![1u32], out, false) == Seq::<JobV>::empty());
    assert(plan_seq(sources, seq![1u32], out, false) == Seq::<JobV>::empty() + plan_for_source(
        src,
        seq![1u32],
        out,
        false,
    ));
    assert(plan_for_source(src, seq![1u32], out, false) =~= seq![job_of(src, out, false, 1u32)]);
    assert(job_dest(src, out, false, 1u32) == out);
    assert(plan_seq(sources, seq![1u32], out, false) =~= seq![
        JobV { from: src, to: out, scale: 1u32 },
    ]);
}

/// What planning returns: under a directory output, or when at most one
/// (source, scale) pair exists, the full plan; otherwise the ambiguity
/// error, carrying the conflicting jobs.
pub open spec fn plan_post(
    r: Result<Vec<SvgRenderJob>, crate::error::PlanError>,
    sources: Seq<Seq<char>>,
    scales: Seq<u32>,
    out: Seq<char>,
    out_is_dir: bool,
) -> bool {
    let full = plan_seq(sources, scales, out, out_is_dir);
    if out_is_dir || sources.len() * scales.len() <= 1 {
        r matches Ok(jobs) && jobs@.map_values(|j: SvgRenderJob| j@) == full
    } else {
        r matches Err(crate::error::PlanError::AmbiguousOutput(jobs)) && jobs@.map_values(
            |j: SvgRenderJob| j@,
        ) == full
    }
}

/// Plans every (source, scale) pair against the output target. A directory
/// output accepts any number of jobs; a file output accepts at most one and
/// fails as ambiguous otherwise, reporting all conflicting jobs.
pub fn plan_jobs(
    sources: &Vec<String>,
    scales: &Vec<u32>,
    output: &String,
    output_is_dir: bool,
) -> (r: Result<Vec<SvgRenderJob>, crate::error::PlanError>)
    requires
        forall|i: int| 0 <= i < sources@.len() ==> file_name_of((#[trigger] sources@[i])@).len() > 0,
        (!output_is_dir && sources@.len() > 0 && (exists|k: int|
            0 <= k < scales@.len() && scales@[k] != 1)) ==> file_name_of(output@).len() > 0,
    ensures
        plan_post(r, sources@.map_values(|s: String| s@), scales@, output@, output_is_dir),
{
    let ghost srcv = sources@.map_values(|s: String| s@);
    let n: usize = sources.len();
    let m: usize = scales.len();
    let mut jobs: Vec<SvgRenderJob> = Vec::new();
    let mut i: usize = 0;
    while i < n
        invariant
            i <= n,
            n == sources@.len(),
            m == scales@.len(),
            srcv == sources@.map_values(|s: String| s@),
            forall|q: int| 0 <= q < sources@.len() ==> file_name_of((#[trigger] sources@[q])@).len()
                > 0,
            (!output_is_dir && sources@.len() > 0 && (exists|k: int|
                0 <= k < scales@.len() && scales@[k] != 1)) ==> file_name_of(output@).len() > 0,
            jobs@.map_values(|j: SvgRenderJob| j@) == plan_seq(
                srcv.take(i as int),
                scales@,
                output@,
                output_is_dir,
            ),
        decreases n - i,
    {
        let mut k: usize = 0;
        while k < m
            invariant
                i < n,
                k <= m,
                n == sources@.len(),
                m == scales@.len(),
                srcv == sources@.map_values(|s: String| s@),
                forall|q: int|
                    0 <= q < sources@.len() ==> file_name_of((#[trigger] sources@[q])@).len() > 0,
                (!output_is_dir && sources@.len() > 0 && (exists|kk: int|
                    0 <= kk < scales@.len() && scales@[kk] != 1)) ==> file_name_of(output@).len()
                    > 0,
                jobs@.map_values(|j: SvgRenderJob| j@) == plan_seq(
                    srcv.take(i as int),
                    scales@,
                    output@,
                    output_is_dir,
                ) + plan_for_source(srcv[i as int], scales@.take(k as int), output@, output_is_dir),
            decreases m - k,
        {
            let job = map_single(&sources[i], output, output_is_dir, scales[k]);
            let ghost oldjobs = jobs@;
            let ghost jv = job@;
            jobs.push(job);
            proof {
                assert(srcv[i as int] == sources@[i as int]@);
                assert(jv == job_of(srcv[i as int], output@, output_is_dir, scales@[k as int]));
                assert(jobs@.map_values(|j: SvgRenderJob| j@) =~= oldjobs.map_values(
                    |j: SvgRenderJob| j@,
                ).push(jv));
                assert(scales@.take(k + 1) =~= scales@.take(k as int).push(scales@[k as int]));
                assert(plan_for_source(srcv[i as int], scales@.take(k + 1), output@, output_is_dir)
                    =~= plan_for_source(
                    srcv[i as int],
                    scales@.take(k as int),
                    output@,
                    output_is_dir,
                ).push(job_of(srcv[i as int], output@, output_is_dir, scales@[k as int])));
                assert(jobs@.map_values(|j: SvgRenderJob| j@) =~= plan_seq(
                    srcv.take(i as int),
                    scales@,
                    output@,
                    output_is_dir,
                ) + plan_for_source(srcv[i as int], scales@.take(k + 1), output@, output_is_dir));
            }
            k = k + 1;
        }
        proof {
            assert(scales@.take(m as int) =~= scales@);
            assert(srcv.take(i + 1).drop_last() =~= srcv.take(i as int));
            assert(srcv.take(i + 1).last() == srcv[i as int]);
            assert(jobs@.map_values(|j: SvgRenderJob| j@) =~= plan_seq(
                srcv.take(i + 1),
                scales@,
                output@,
                output_is_dir,
            ));
        }
        i = i + 1;
    }
    proof {
        assert(srcv.take(n as int) =~= srcv);
        lemma_plan_len(srcv, scales@, output@, output_is_dir);
    }
    if output_is_dir {
        Ok(jobs)
    } else if jobs.len() <= 1 {
        Ok(jobs)
    } else {
        Err(crate::error::PlanError::AmbiguousOutput(jobs))
    }
}

// ---------------------------------------------------------------------------
// The caller's request, and the full planning pipeline.
// ---------------------------------------------------------------------------

/// The caller's request: an input path (a directory of SVG files or one SVG
/// file), an output path (a directory or one file), optional explicit scale
/// factors, and an optional thread count.
#[derive(Debug)]
pub struct Args {
    pub output: String,
    pub input: String,
    pub scales: Option<Vec<u32>>,
    pub threads: Option<usize>,
}

/// Copies a scale list.
fn clone_scales(v: &Vec<u32>) -> (r: Vec<u32>)
    ensures
        r@ == v@,
{
    let mut r: Vec<u32> = Vec::new();
    let mut i: usize = 0;
    let n: usize = v.len();
    while i < n
        invariant
            i <= n,
            n == v@.len(),
            r@ == v@.take(i as int),
        decreases n - i,
    {
        r.push(v[i]);
        proof {
            assert(v@.take(i + 1) =~= v@.take(i as int).push(v@[i as int]));
        }
        i = i + 1;
    }
    proof {
        assert(v@.take(n as int) =~= v@);
    }
    r
}

impl Args {
    /// The scale list used when no configuration file contributes: the
    /// explicit one, or the default.
    pub open spec fn scales_without_config(&self) -> Seq<u32> {
        match self.scales {
            Some(s) => s@,
            None => seq![1u32],
        }
    }

    /// Merges the caller's explicit values with a discovered configuration,
    /// field by field: an explicit value wins, a discovered one is next, and
    /// the defaults close the gap.
    pub fn merged_config(&self, found: &Option<crate::yaml::RenderYaml>) -> (r:
        crate::yaml::RenderYaml)
        ensures
            r.scales@ == (match self.scales {
                Some(s) => s@,
                None => match found {
                    Some(y) => y.scales@,
                    None => seq![1u32],
                },
            }),
            r.threads == (match self.threads {
                Some(t) => Some(t),
                None => match found {
                    Some(y) => y.threads,
                    None => None::<usize>,
                },
            }),
    {
        let scales: Vec<u32> = match &self.scales {
            Some(s) => clone_scales(s),
            None => match found {
                Some(y) => clone_scales(&y.scales),
                None => crate::yaml::default_scales(),
            },
        };
        let threads: Option<usize> = match self.threads {
            Some(t) => Some(t),
            None => match found {
                Some(y) => y.threads,
                None => None,
            },
        };
        crate::yaml::RenderYaml { scales, threads }
    }

    /// The full planning pipeline: locate and parse the configuration, merge
    /// it with the explicit values, discover the SVG sources, and plan one
    /// job per (source, scale) pair against the output target.
    ///
    /// A missing input root fails as not found; a malformed configuration
    /// file aborts the run; more than one pair against a file output fails
    /// as ambiguous. Otherwise the outcome is exactly the plan over the
    /// merged scales: the explicit ones, else those the configuration file's
    /// text denotes, else the default.
    pub fn compute_jobs(&self, input_fs: &crate::paths::FsView, output_kind: PathKind) -> (r:
        Result<Vec<SvgRenderJob>, crate::error::PlanError>)
        requires
            view_wf(input_fs@),
            !(output_kind is Directory) ==> file_name_of(self.output@).len() > 0,
        ensures
            (input_fs@.kind is Missing) <==> (r matches Err(e) && e is NotFound),
            r is Err ==> (r->Err_0 is NotFound || r->Err_0 is ConfigParse
                || r->Err_0 is AmbiguousOutput),
            !(input_fs@.kind is Missing) && !(yaml_selected(input_fs@) matches Some(c)
                && c is Some) ==> plan_post(
                r,
                discovered(input_fs@),
                self.scales_without_config(),
                self.output@,
                output_kind is Directory,
            ),
            yaml_selected(input_fs@) matches Some(Some(t)) ==> ({
                &&& (crate::yaml::yaml_cfg(t) is None ==> (r matches Err(e) && e is ConfigParse))
                &&& (crate::yaml::yaml_cfg(t) is Some ==> plan_post(
                    r,
                    discovered(input_fs@),
                    if self.scales is Some {
                        self.scales->0@
                    } else {
                        crate::yaml::cfg_scales(t)
                    },
                    self.output@,
                    output_kind is Directory,
                ))
            }),
    {
        let yaml_found: Option<crate::yaml::RenderYaml> = match crate::paths::find_yaml(input_fs) {
            Ok(o) => o,
            Err(e) => match e {
                crate::error::PlanError::ConfigParse => {
                    return Err(crate::error::PlanError::ConfigParse);
                },
                _ => None,
            },
        };
        let merged = self.merged_config(&yaml_found);
        let sources = match crate::paths::find_svgs(input_fs) {
            Ok(v) => v,
            Err(e) => {
                return Err(e);
            },
        };
        let output_is_dir = matches!(output_kind, PathKind::Directory);
        proof {
            crate::paths::lemma_discovered_file_names(input_fs@);
            assert(sources@.map_values(|s: String| s@) == discovered(input_fs@));
            assert forall|i: int| 0 <= i < sources@.len() implies file_name_of(
                (#[trigger] sources@[i])@,
            ).len() > 0 by {
                assert(sources@[i]@ == discovered(input_fs@)[i]);
            }
        }
        plan_jobs(&sources, &merged.scales, &self.output, output_is_dir)
    }
}

} // verus!
