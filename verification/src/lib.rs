//! Pseudo-anonymization of personal identities in mailing-list datasets:
//! names and e-mail addresses are replaced by their SHA-1 digests, the same
//! identity always by the same digest.

pub mod anonymizer;
pub mod config;
pub mod constants;
pub mod email_parser;
pub mod errors;
pub mod extractors;
pub mod frame;
pub mod hashing;
pub mod identity;
pub mod laws;
pub mod paths;
pub mod reader;
pub mod text;
pub mod transform;
pub mod writer;

use vstd::prelude::*;

use crate::config::AppConfig;
use crate::errors::AnonymizerError;
use crate::frame::{frame_anonymized, frame_fault, has_id_source, id_map_of, Frame};
use crate::paths::{join, join_path};
use crate::transform::{anonymize_dataframe, build_id_map, frame_error, id_map_error};

verus! {

/// What a run does: the lists to anonymize and the compression level.
#[derive(Debug, Clone, PartialEq, Eq)]
pub struct RunPlan {
    pub lists: Vec<String>,
    pub compression: usize,
}

/// The lists a configuration asks for: those it names, else the
/// directories found in the input directory.
pub open spec fn requested_lists(cfg: AppConfig, discovered: Seq<String>) -> Seq<String> {
    match cfg.lists_to_anonymize {
        Some(l) => l@,
        None => discovered,
    }
}

fn clone_strings(v: &Vec<String>) -> (r: Vec<String>)
    ensures
        r@ == v@,
{
    let mut r: Vec<String> = Vec::new();
    let mut i: usize = 0;
    while i < v.len()
        invariant
            i <= v.len(),
            r@ == v@.subrange(0, i as int),
        decreases v.len() - i,
    {
        r.push(v[i].clone());
        assert(v@.subrange(0, i + 1) == v@.subrange(0, i as int).push(v@[i as int]));
        i = i + 1;
    }
    assert(v@.subrange(0, v@.len() as int) == v@);
    r
}

/// Plans a run from the configuration and the subdirectories of the input
/// directory: nothing to do when no list is requested; otherwise at least one
/// thread, and the configured compression level or 12.
pub fn plan_run(cfg: &mut AppConfig, discovered: Vec<String>) -> (r: Option<RunPlan>)
    ensures
        match r {
            None => {
                &&& requested_lists(*old(cfg), discovered@).len() == 0
                &&& *final(cfg) == *old(cfg)
            },
            Some(p) => {
                &&& p.lists@ == requested_lists(*old(cfg), discovered@)
                &&& p.lists@.len() > 0
                &&& p.compression == match old(cfg).compression_level {
                    Some(c) => c,
                    None => 12,
                }
                &&& final(cfg).nthreads == if old(cfg).nthreads < 1 { 1 } else { old(cfg).nthreads }
                &&& final(cfg).input_dir_path == old(cfg).input_dir_path
                &&& final(cfg).output_dir_path == old(cfg).output_dir_path
                &&& final(cfg).lists_to_anonymize == old(cfg).lists_to_anonymize
                &&& final(cfg).compression_level == old(cfg).compression_level
            },
        },
{
    let lists = match &cfg.lists_to_anonymize {
        Some(l) => clone_strings(l),
        None => discovered,
    };
    if lists.len() == 0 {
        return None;
    }
    if cfg.nthreads < 1 {
        cfg.nthreads = 1;
    }
    let compression = match cfg.compression_level {
        Some(c) => c,
        None => crate::constants::DEFAULT_COMPRESSION_LEVEL,
    };
    Some(RunPlan { lists, compression })
}

/// The two places a list may be in: `<input>/<list>` and the Hive-style
/// `<input>/list=<list>`.
pub fn list_dir_candidates(input_dir: &str, mailing_list: &str) -> (r: (String, String))
    ensures
        r.0@ == join_path(input_dir@, mailing_list@),
        r.1@ == join_path(input_dir@, "list="@ + mailing_list@),
{
    let mut hive = String::from_str("list=");
    hive.append(mailing_list);
    (join(input_dir, mailing_list), join(input_dir, hive.as_str()))
}

/// The list directory: the bare one if it is a directory, else the Hive-style
/// one if that is, else the bare one.
pub fn resolve_list_dir(input_dir: &str, mailing_list: &str, bare_is_dir: bool, hive_is_dir: bool) -> (r: String)
    ensures
        r@ == if !bare_is_dir && hive_is_dir {
            join_path(input_dir@, "list="@ + mailing_list@)
        } else {
            join_path(input_dir@, mailing_list@)
        },
{
    let (bare, hive) = list_dir_candidates(input_dir, mailing_list);
    if bare_is_dir {
        return bare;
    }
    if hive_is_dir {
        return hive;
    }
    bare
}

/// `<output>/<dir>/list=<list>/list_data.parquet`.
pub open spec fn list_output_path(output_dir: Seq<char>, dir: Seq<char>, mailing_list: Seq<char>) -> Seq<char> {
    join_path(join_path(join_path(output_dir, dir), "list="@ + mailing_list), "list_data.parquet"@)
}

/// The output file of a list is the output directory, a `/` unless the
/// directory is empty or already ends with one, the subdirectory, then
/// `/list=`, the list name exactly as given, and `/list_data.parquet`
/// (for a list name that does not end with `/`).
pub proof fn law_output_path_holds_list_name(output_dir: Seq<char>, dir: Seq<char>, mailing_list: Seq<char>)
    requires
        dir.len() > 0,
        dir[0] != '/',
        dir.last() != '/',
        mailing_list.len() == 0 || mailing_list.last() != '/',
    ensures
        list_output_path(output_dir, dir, mailing_list) == (if output_dir.len() == 0 {
            dir
        } else if output_dir.last() == '/' {
            output_dir + dir
        } else {
            output_dir + "/"@ + dir
        }) + "/list="@ + mailing_list + "/list_data.parquet"@,
{
    reveal_strlit("/");
    reveal_strlit("list=");
    reveal_strlit("/list=");
    reveal_strlit("list_data.parquet");
    reveal_strlit("/list_data.parquet");
    let d = join_path(output_dir, dir);
    let hive = "list="@ + mailing_list;
    assert(hive[0] == 'l');
    assert(d.len() > 0 && d.last() == dir.last());
    let l = join_path(d, hive);
    assert(l == d + seq!['/'] + hive);
    assert(l.len() > 0 && l.last() != '/') by {
        if mailing_list.len() > 0 {
            assert(l.last() == mailing_list.last());
        } else {
            assert(l.last() == '=');
        }
    }
    assert("list_data.parquet"@[0] == 'l');
    assert(join_path(l, "list_data.parquet"@) == l + seq!['/'] + "list_data.parquet"@);
    assert("/list="@ =~= seq!['/'] + "list="@);
    assert("/list_data.parquet"@ =~= seq!['/'] + "list_data.parquet"@);
}

fn output_path(output_dir: &str, dir: &str, mailing_list: &str) -> (r: String)
    ensures
        r@ == list_output_path(output_dir@, dir@, mailing_list@),
{
    let mut hive = String::from_str("list=");
    hive.append(mailing_list);
    let d = join(output_dir, dir);
    let l = join(d.as_str(), hive.as_str());
    join(l.as_str(), "list_data.parquet")
}

/// What one mailing list becomes: the anonymized dataset and the identity
/// map, with the files they go to.
#[derive(Debug, Clone, PartialEq, Eq)]
pub struct ListOutput {
    pub dataset_path: String,
    pub dataset: Frame,
    pub id_map_path: String,
    pub id_map: Frame,
}

/// Anonymizes all rows of a single mailing list: builds the identity map from
/// the `from` column as it was read, anonymizes the frame, and names the files
/// `<output>/dataset/list=<list>/list_data.parquet` and
/// `<output>/id_map_from/list=<list>/list_data.parquet`.
pub fn process_mailing_list(mailing_list: &str, output_dir: &str, df: Frame) -> (r: Result<ListOutput, AnonymizerError>)
    ensures
        match r {
            Ok(o) => {
                &&& has_id_source(df.columns@)
                &&& frame_fault(df.columns@) is None
                &&& id_map_of(df.columns@, o.id_map)
                &&& frame_anonymized(df, o.dataset)
                &&& o.dataset_path@ == list_output_path(output_dir@, "dataset"@, mailing_list@)
                &&& o.id_map_path@ == list_output_path(output_dir@, "id_map_from"@, mailing_list@)
            },
            Err(e) => if !has_id_source(df.columns@) {
                id_map_error(df.columns@, e)
            } else {
                &&& frame_fault(df.columns@) matches Some(f)
                &&& frame_error(df.columns@, f, e)
            },
        },
{
    let id_map = match build_id_map(&df) {
        Ok(m) => m,
        Err(e) => {
            return Err(e);
        },
    };
    let dataset = match anonymize_dataframe(df) {
        Ok(d) => d,
        Err(e) => {
            return Err(e);
        },
    };
    Ok(ListOutput {
        dataset_path: output_path(output_dir, "dataset", mailing_list),
        dataset,
        id_map_path: output_path(output_dir, "id_map_from", mailing_list),
        id_map,
    })
}

} // verus!
