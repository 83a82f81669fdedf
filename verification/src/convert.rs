//! Planning: turning validated albums into discrete tasks, and the exact
//! argument contract of the external transcoder.
//!
//! A task either converts one lossless file or copies one other file into
//! the mirrored output directory. Planning is pure: the caller creates the
//! planned output directory before executing any of the album's tasks.

use vstd::prelude::*;
use crate::RunError;
use crate::album::{Album, album_valid};
use crate::paths::{
    extension_lower_spec, file_name_of, file_name_spec, is_lossless, is_lossless_file,
    join_path, join_spec, lemma_last_index_of, lemma_last_index_of_unique, last_index_of,
    lower_seq, mp3_ext, strip_prefix_of, strip_prefix_spec, with_ext_spec, with_extension_str,
};

verus! {

/// One unit of work: convert a lossless file, or copy any other file.
#[derive(Debug)]
pub enum Task {
    Convert { input: String, output: String, quality: u8 },
    Copy { input: String, output: String },
}

/// The planned output directory and tasks of one valid album.
#[derive(Debug)]
pub struct AlbumPlan {
    pub output_dir: String,
    pub tasks: Vec<Task>,
}

/// Output path of a conversion: the file name with the lossy extension,
/// inside the output directory.
pub open spec fn convert_output_spec(f: Seq<char>, out_dir: Seq<char>) -> Seq<char> {
    join_spec(out_dir, with_ext_spec(file_name_spec(f), mp3_ext()))
}

/// Output path of a copy: the unchanged file name inside the output
/// directory.
pub open spec fn copy_output_spec(f: Seq<char>, out_dir: Seq<char>) -> Seq<char> {
    join_spec(out_dir, file_name_spec(f))
}

/// `t` is the task the planner owes for file `f` of an album with output
/// directory `out_dir`.
pub open spec fn task_is_planned(t: Task, f: Seq<char>, out_dir: Seq<char>, q: u8) -> bool {
    if is_lossless(f) {
        t matches Task::Convert { input, output, quality } && input@ == f && output@
            == convert_output_spec(f, out_dir) && quality == q
    } else {
        t matches Task::Copy { input, output } && input@ == f && output@ == copy_output_spec(
            f,
            out_dir,
        )
    }
}

/// Planning fails exactly when the album path is not rooted under the
/// input root, or some file has no extractable file name.
pub open spec fn album_plan_error(album: Album, input_root: Seq<char>) -> bool {
    strip_prefix_spec(album.path@, input_root) is None || exists|i: int|
        0 <= i < album.files@.len() && file_name_spec(#[trigger] album.files@[i]@).len() == 0
}

/// The mirrored output directory of an album.
pub open spec fn album_output_dir_spec(
    album: Album,
    input_root: Seq<char>,
    output_root: Seq<char>,
) -> Seq<char> {
    match strip_prefix_spec(album.path@, input_root) {
        Some(rel) => join_spec(output_root, rel),
        None => Seq::<char>::empty(),
    }
}

/// `plan` is the plan the planner owes for `album`.
pub open spec fn plan_ok_for(
    plan: AlbumPlan,
    album: Album,
    input_root: Seq<char>,
    output_root: Seq<char>,
    q: u8,
) -> bool {
    &&& plan.output_dir@ == album_output_dir_spec(album, input_root, output_root)
    &&& plan.tasks@.len() == album.files@.len()
    &&& forall|i: int|
        0 <= i < plan.tasks@.len() ==> task_is_planned(
            #[trigger] plan.tasks@[i],
            album.files@[i]@,
            plan.output_dir@,
            q,
        )
}

/// Expands one validated album into its ordered task list and mirrored
/// output directory.
pub fn collect_album_tasks(
    album: &Album,
    input_root: &str,
    output_root: &str,
    quality: u8,
) -> (r: Result<AlbumPlan, RunError>)
    requires
        quality <= 9,
    ensures
        r is Err <==> album_plan_error(*album, input_root@),
        r is Err ==> r == Err::<AlbumPlan, RunError>(RunError::PathError),
        r matches Ok(plan) ==> plan_ok_for(plan, *album, input_root@, output_root@, quality),
{
    let rel = match strip_prefix_of(album.path.as_str(), input_root) {
        None => {
            return Err(RunError::PathError);
        },
        Some(rel) => rel,
    };
    let output_dir = join_path(output_root, rel.as_str());
    let mut tasks: Vec<Task> = Vec::new();
    let mut k: usize = 0;
    while k < album.files.len()
        invariant
            k <= album.files@.len(),
            quality <= 9,
            strip_prefix_spec(album.path@, input_root@) is Some,
            output_dir@ == album_output_dir_spec(*album, input_root@, output_root@),
            tasks@.len() == k,
            forall|i: int|
                0 <= i < k ==> task_is_planned(
                    #[trigger] tasks@[i],
                    album.files@[i]@,
                    output_dir@,
                    quality,
                ),
            forall|i: int| 0 <= i < k ==> file_name_spec(#[trigger] album.files@[i]@).len() > 0,
        decreases album.files@.len() - k,
    {
        let f = &album.files[k];
        let name = match file_name_of(f.as_str()) {
            None => {
                return Err(RunError::PathError);
            },
            Some(n) => n,
        };
        if is_lossless_file(f.as_str()) {
            let out_name = with_extension_str(name.as_str(), "mp3");
            proof {
                reveal_strlit("mp3");
                assert("mp3"@ =~= mp3_ext());
            }
            let output = join_path(output_dir.as_str(), out_name.as_str());
            tasks.push(Task::Convert { input: f.clone(), output, quality });
        } else {
            let output = join_path(output_dir.as_str(), name.as_str());
            tasks.push(Task::Copy { input: f.clone(), output });
        }
        k = k + 1;
    }
    Ok(AlbumPlan { output_dir, tasks })
}

/// The decimal rendering of a quality value.
pub open spec fn quality_digit_seq(q: u8) -> Seq<char> {
    match q {
        0 => "0"@,
        1 => "1"@,
        2 => "2"@,
        3 => "3"@,
        4 => "4"@,
        5 => "5"@,
        6 => "6"@,
        7 => "7"@,
        8 => "8"@,
        9 => "9"@,
        _ => Seq::<char>::empty(),
    }
}

/// The fixed invocation contract of the external transcoder: input, lossy
/// codec selector, quality, metadata copy, unconditional overwrite, output,
/// banner suppression, errors-only logging — in this order.
pub open spec fn transcoder_args_spec(input: Seq<char>, output: Seq<char>, q: u8) -> Seq<
    Seq<char>,
> {
    seq![
        "-i"@,
        input,
        "-codec:a"@,
        "libmp3lame"@,
        "-q:a"@,
        quality_digit_seq(q),
        "-map_metadata"@,
        "0"@,
        "-y"@,
        output,
        "-hide_banner"@,
        "-loglevel"@,
        "error"@,
    ]
}

/// The quality value as a decimal argument string.
fn quality_arg(q: u8) -> (r: String)
    requires
        q <= 9,
    ensures
        r@ == quality_digit_seq(q),
{
    match q {
        0 => "0".to_owned(),
        1 => "1".to_owned(),
        2 => "2".to_owned(),
        3 => "3".to_owned(),
        4 => "4".to_owned(),
        5 => "5".to_owned(),
        6 => "6".to_owned(),
        7 => "7".to_owned(),
        8 => "8".to_owned(),
        _ => "9".to_owned(),
    }
}

/// The name of the external transcoder executable.
pub fn transcoder_program() -> (r: String)
    ensures
        r@ == "ffmpeg"@,
{
    "ffmpeg".to_owned()
}

/// The full transcoder argument list for one conversion.
pub fn transcoder_args(input: &str, output: &str, quality: u8) -> (args: Vec<String>)
    requires
        quality <= 9,
    ensures
        args@.len() == 13,
        forall|i: int|
            0 <= i < 13 ==> #[trigger] args@[i]@ == transcoder_args_spec(
                input@,
                output@,
                quality,
            )[i],
{
    let mut args: Vec<String> = Vec::new();
    args.push("-i".to_owned());
    args.push(input.to_owned());
    args.push("-codec:a".to_owned());
    args.push("libmp3lame".to_owned());
    args.push("-q:a".to_owned());
    args.push(quality_arg(quality));
    args.push("-map_metadata".to_owned());
    args.push("0".to_owned());
    args.push("-y".to_owned());
    args.push(output.to_owned());
    args.push("-hide_banner".to_owned());
    args.push("-loglevel".to_owned());
    args.push("error".to_owned());
    args
}

impl Task {
    /// The external invocation a task needs: the transcoder argument list
    /// for a conversion, nothing for a plain copy.
    pub fn invocation_args(&self) -> (r: Option<Vec<String>>)
        requires
            *self matches Task::Convert { quality, .. } ==> quality <= 9,
        ensures
            *self matches Task::Convert { input, output, quality } ==> (r matches Some(args)
                && args@.len() == 13 && (forall|i: int|
                0 <= i < 13 ==> #[trigger] args@[i]@ == transcoder_args_spec(
                    input@,
                    output@,
                    quality,
                )[i])),
            *self matches Task::Copy { .. } ==> r is None,
    {
        match self {
            Task::Convert { input, output, quality } => Some(
                transcoder_args(input.as_str(), output.as_str(), *quality),
            ),
            Task::Copy { .. } => None,
        }
    }
}

/// Paths of the albums rejected by validation, in input order.
pub open spec fn skipped_paths_spec(albums: Seq<Album>) -> Seq<Seq<char>>
    decreases albums.len(),
{
    if albums.len() == 0 {
        Seq::<Seq<char>>::empty()
    } else {
        let rest = skipped_paths_spec(albums.drop_last());
        if !album_valid(albums.last().files@) {
            rest.push(albums.last().path@)
        } else {
            rest
        }
    }
}

/// Paths of the valid albums whose planning fails, in input order.
pub open spec fn failed_paths_spec(albums: Seq<Album>, input_root: Seq<char>) -> Seq<Seq<char>>
    decreases albums.len(),
{
    if albums.len() == 0 {
        Seq::<Seq<char>>::empty()
    } else {
        let rest = failed_paths_spec(albums.drop_last(), input_root);
        if album_valid(albums.last().files@) && album_plan_error(albums.last(), input_root) {
            rest.push(albums.last().path@)
        } else {
            rest
        }
    }
}

/// The valid albums whose planning succeeds, in input order.
pub open spec fn planned_albums_spec(albums: Seq<Album>, input_root: Seq<char>) -> Seq<Album>
    decreases albums.len(),
{
    if albums.len() == 0 {
        Seq::<Album>::empty()
    } else {
        let rest = planned_albums_spec(albums.drop_last(), input_root);
        if album_valid(albums.last().files@) && !album_plan_error(albums.last(), input_root) {
            rest.push(albums.last())
        } else {
            rest
        }
    }
}

/// How many albums fail validation.
pub open spec fn count_invalid(albums: Seq<Album>) -> nat {
    skipped_paths_spec(albums).len()
}

/// The outcome of planning a whole run: the plans of the albums that
/// passed, the paths of the skipped (mixed-content) albums, and the paths
/// of the albums whose planning failed.
#[derive(Debug)]
pub struct RunPlan {
    pub plans: Vec<AlbumPlan>,
    pub skipped: Vec<String>,
    pub failed: Vec<String>,
}

/// Validates every album and plans the valid ones, sequentially and before
/// any task runs; a failing album never stops the others.
pub fn plan_run(albums: &Vec<Album>, input_root: &str, output_root: &str, quality: u8) -> (r:
    RunPlan)
    requires
        quality <= 9,
    ensures
        r.skipped@.len() == skipped_paths_spec(albums@).len(),
        forall|i: int|
            0 <= i < r.skipped@.len() ==> #[trigger] r.skipped@[i]@ == skipped_paths_spec(
                albums@,
            )[i],
        r.skipped@.len() == count_invalid(albums@),
        r.failed@.len() == failed_paths_spec(albums@, input_root@).len(),
        forall|i: int|
            0 <= i < r.failed@.len() ==> #[trigger] r.failed@[i]@ == failed_paths_spec(
                albums@,
                input_root@,
            )[i],
        r.plans@.len() == planned_albums_spec(albums@, input_root@).len(),
        forall|i: int|
            0 <= i < r.plans@.len() ==> plan_ok_for(
                #[trigger] r.plans@[i],
                planned_albums_spec(albums@, input_root@)[i],
                input_root@,
                output_root@,
                quality,
            ),
{
    let mut plans: Vec<AlbumPlan> = Vec::new();
    let mut skipped: Vec<String> = Vec::new();
    let mut failed: Vec<String> = Vec::new();
    let mut k: usize = 0;
    while k < albums.len()
        invariant
            k <= albums@.len(),
            quality <= 9,
            skipped@.len() == skipped_paths_spec(albums@.take(k as int)).len(),
            forall|i: int|
                0 <= i < skipped@.len() ==> #[trigger] skipped@[i]@ == skipped_paths_spec(
                    albums@.take(k as int),
                )[i],
            failed@.len() == failed_paths_spec(albums@.take(k as int), input_root@).len(),
            forall|i: int|
                0 <= i < failed@.len() ==> #[trigger] failed@[i]@ == failed_paths_spec(
                    albums@.take(k as int),
                    input_root@,
                )[i],
            plans@.len() == planned_albums_spec(albums@.take(k as int), input_root@).len(),
            forall|i: int|
                0 <= i < plans@.len() ==> plan_ok_for(
                    #[trigger] plans@[i],
                    planned_albums_spec(albums@.take(k as int), input_root@)[i],
                    input_root@,
                    output_root@,
                    quality,
                ),
        decreases albums@.len() - k,
    {
        proof {
            assert(albums@.take(k as int + 1).drop_last() =~= albums@.take(k as int));
            assert(albums@.take(k as int + 1).last() == albums@[k as int]);
        }
        let album = &albums[k];
        if !album.validate() {
            skipped.push(album.path.clone());
        } else {
            match collect_album_tasks(album, input_root, output_root, quality) {
                Ok(plan) => {
                    plans.push(plan);
                },
                Err(_) => {
                    failed.push(album.path.clone());
                },
            }
        }
        k = k + 1;
    }
    proof {
        assert(albums@.take(albums@.len() as int) =~= albums@);
    }
    RunPlan { plans, skipped, failed }
}

/// All tasks of a sequence of plans, in order.
pub open spec fn concat_tasks(plans: Seq<AlbumPlan>) -> Seq<Task>
    decreases plans.len(),
{
    if plans.len() == 0 {
        Seq::<Task>::empty()
    } else {
        concat_tasks(plans.drop_last()) + plans.last().tasks@
    }
}

/// Flattens per-album plans into the single task list a worker pool drains.
pub fn flatten_tasks(plans: Vec<AlbumPlan>) -> (tasks: Vec<Task>)
    ensures
        tasks@ == concat_tasks(plans@),
        tasks@.len() == total_tasks(plans@),
{
    let ghost all = plans@;
    let mut rest = plans;
    let mut tasks: Vec<Task> = Vec::new();
    let ghost mut j: int = 0;
    while rest.len() > 0
        invariant
            0 <= j <= all.len(),
            rest@ == all.skip(j),
            tasks@ == concat_tasks(all.take(j)),
        decreases rest@.len(),
    {
        proof {
            assert(all.take(j + 1).drop_last() =~= all.take(j));
            assert(all.take(j + 1).last() == all[j]);
        }
        let plan = rest.remove(0);
        proof {
            assert(plan == all[j]);
            assert(rest@ =~= all.skip(j + 1));
        }
        let AlbumPlan { output_dir: _, tasks: mut ts } = plan;
        tasks.append(&mut ts);
        proof {
            j = j + 1;
        }
    }
    proof {
        assert(all.take(all.len() as int) =~= all);
    }
    tasks
}

/// The number of tasks a sequence of plans holds.
pub open spec fn total_tasks(plans: Seq<AlbumPlan>) -> nat {
    concat_tasks(plans).len()
}

/// Every album is accounted for exactly once: it is skipped, fails
/// planning, or is planned.
pub proof fn lemma_every_album_accounted(albums: Seq<Album>, input_root: Seq<char>)
    ensures
        skipped_paths_spec(albums).len() + failed_paths_spec(albums, input_root).len()
            + planned_albums_spec(albums, input_root).len() == albums.len(),
    decreases albums.len(),
{
    if albums.len() > 0 {
        lemma_every_album_accounted(albums.drop_last(), input_root);
    }
}

/// The file name never contains a separator.
pub proof fn lemma_file_name_no_sep(p: Seq<char>)
    ensures
        forall|j: int| 0 <= j < file_name_spec(p).len() ==> file_name_spec(p)[j] != '/',
{
    lemma_last_index_of(p, '/');
    assert forall|j: int| 0 <= j < file_name_spec(p).len() implies file_name_spec(p)[j]
        != '/' by {
        assert(file_name_spec(p)[j] == p[last_index_of(p, '/') + 1 + j]);
    }
}

/// Joining a nonempty, separator-free name: the joined path's file name is
/// that name.
pub proof fn lemma_join_file_name(dir: Seq<char>, name: Seq<char>)
    requires
        name.len() > 0,
        forall|j: int| 0 <= j < name.len() ==> name[j] != '/',
    ensures
        file_name_spec(join_spec(dir, name)) == name,
{
    let full = dir + seq!['/'] + name;
    let sep_at = dir.len() as int;
    assert(full[sep_at] == '/');
    assert forall|j: int| sep_at < j < full.len() implies full[j] != '/' by {
        assert(full[j] == name[j - sep_at - 1]);
    }
    lemma_last_index_of_unique(full, '/', sep_at);
    assert(file_name_spec(full) =~= name);
}

/// A conversion's output path carries the lossy extension, whatever the
/// casing of the input's extension.
pub proof fn lemma_convert_output_extension(f: Seq<char>, out_dir: Seq<char>)
    requires
        is_lossless(f),
    ensures
        extension_lower_spec(convert_output_spec(f, out_dir)) == Some(mp3_ext()),
{
    let name = file_name_spec(f);
    let d = last_index_of(name, '.');
    assert(d > 0);
    lemma_last_index_of(name, '.');
    let stem = name.subrange(0, d);
    let out_name = with_ext_spec(name, mp3_ext());
    assert(out_name == stem + seq!['.'] + mp3_ext());
    lemma_file_name_no_sep(f);
    assert forall|j: int| 0 <= j < out_name.len() implies out_name[j] != '/' by {
        if j < d {
            assert(out_name[j] == name[j]);
        } else if j == d {
            assert(out_name[j] == '.');
        } else {
            assert(out_name[j] == mp3_ext()[j - d - 1]);
        }
    }
    lemma_join_file_name(out_dir, out_name);
    let full = convert_output_spec(f, out_dir);
    assert(file_name_spec(full) == out_name);
    assert(out_name[d] == '.');
    assert forall|j: int| d < j < out_name.len() implies out_name[j] != '.' by {
        assert(out_name[j] == mp3_ext()[j - d - 1]);
    }
    lemma_last_index_of_unique(out_name, '.', d);
    assert(out_name.subrange(d + 1, out_name.len() as int) =~= mp3_ext());
    assert(lower_seq(mp3_ext()) =~= mp3_ext());
}

} // verus!
