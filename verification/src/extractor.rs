//! The event stream reader and per-event pipeline: decompression, line
//! splitting, event-record reading, and entity extraction.
use vstd::prelude::*;
use vstd::slice::{slice_subrange, slice_to_vec};
use crate::filter::{
    arch_of, extract_architecture, extract_version_4digit, filter_appimages, get_package_name,
    is_continuous_release, lemma_version4_wf, pkg_of, spec_filter, spec_is_continuous,
    spec_version4, version_wf,
};
use crate::model::{
    asset_views, entity_views, opt_view, AppImageRelease, Arch, Asset, AssetV, EventRecord,
    EventRecordV, ReleaseRecord, ReleaseRecordV, ReleaseV,
};
use crate::text::str_eq;
use crate::timestamp::{parse_wire_ts, spec_parse_ts, ts_lt, Timestamp};

verus! {

// ---------------------------------------------------------------------------
// Trusted boundary: flate2 and serde_json
// ---------------------------------------------------------------------------

/// What inflating a gzip stream yields — a function of the bytes alone;
/// `None` when they are not a well-formed gzip stream.
pub uninterp spec fn gunzip_of(b: Seq<u8>) -> Option<Seq<u8>>;

/// Relies on flate2's `GzDecoder` read to the end over an in-memory
/// stream: inflates a gzip byte stream, deterministically in the input.
#[verifier::external_body]
fn gunzip(data: &[u8]) -> (r: Option<Vec<u8>>)
    ensures
        r is Some <==> gunzip_of(data@) is Some,
        r matches Some(v) ==> gunzip_of(data@) == Some(v@),
{
    let mut d = flate2::read::GzDecoder::new(data);
    let mut out = Vec::new();
    match std::io::Read::read_to_end(&mut d, &mut out) {
        Ok(_) => Some(out),
        Err(_) => None,
    }
}

/// What reading one event line yields — a function of its bytes alone
/// (serde_json parsing is deterministic); `None` exactly when the line
/// is not a well-formed JSON text.
pub uninterp spec fn event_of(line: Seq<u8>) -> Option<EventRecordV>;

#[verifier::external_type_specification]
#[verifier::external_body]
pub struct ExValue(serde_json::Value);

/// Relies on serde_json's `Value::{get, as_str, as_array}`: reads the
/// fields of a release payload node; one step of the line reading that
/// `event_of` names.
#[verifier::external_body]
fn read_release(x: &serde_json::Value) -> ReleaseRecord {
    let s = |n: &serde_json::Value, k: &str| n.get(k).and_then(|t| t.as_str()).map(str::to_string);
    ReleaseRecord {
        name: s(x, "name"),
        tag_name: s(x, "tag_name"),
        published_at: s(x, "published_at"),
        assets: x.get("assets").and_then(|a| a.as_array()).map(|ar| ar.iter().map(|a| Asset {
            name: s(a, "name").unwrap_or_default(),
            download_url: s(a, "browser_download_url").unwrap_or_default(),
        }).collect()),
    }
}

/// Relies on serde_json's `from_slice` and `Value::{get, as_str}`:
/// reads one event line into the fields the pipeline consumes,
/// deterministically in the bytes; `None` exactly when the line is not
/// well-formed JSON.
#[verifier::external_body]
fn read_event(line: &[u8]) -> (r: Option<EventRecord>)
    ensures
        r matches Some(ev) ==> Some(ev@) == event_of(line@),
        r is None <==> event_of(line@) is None,
{
    let v = serde_json::from_slice::<serde_json::Value>(line).ok()?;
    let s = |n: &serde_json::Value, k: &str| n.get(k).and_then(|t| t.as_str()).map(str::to_string);
    Some(EventRecord {
        event_type: s(&v, "type"),
        created_at: s(&v, "created_at"),
        repo_name: v.get("repo").and_then(|r| s(r, "name")),
        release: v.get("payload").and_then(|p| p.get("release")).map(read_release),
    })
}

// ---------------------------------------------------------------------------
// Line splitting
// ---------------------------------------------------------------------------

/// Index of the first occurrence of `x` in `b` at or after `i`;
/// `b.len()` when there is none.
pub open spec fn find_byte_from(b: Seq<u8>, x: u8, i: int) -> int
    decreases b.len() - i when 0 <= i <= b.len()
{
    if i >= b.len() {
        b.len() as int
    } else if b[i] == x {
        i
    } else {
        find_byte_from(b, x, i + 1)
    }
}

pub proof fn lemma_find_byte_from(b: Seq<u8>, x: u8, i: int)
    requires
        0 <= i <= b.len(),
    ensures
        i <= find_byte_from(b, x, i) <= b.len(),
    decreases b.len() - i
{
    if i < b.len() && b[i] != x {
        lemma_find_byte_from(b, x, i + 1);
    }
}

/// A newline-terminated segment, its trailing carriage return stripped.
pub open spec fn strip_cr(l: Seq<u8>) -> Seq<u8> {
    if l.len() > 0 && l.last() == 13 {
        l.drop_last()
    } else {
        l
    }
}

/// The lines of a byte stream: split at each newline, a carriage return
/// before the newline stripped, a final unterminated segment kept whole,
/// a trailing newline yielding no empty final line.
pub open spec fn spec_lines(b: Seq<u8>) -> Seq<Seq<u8>>
    decreases b.len() via spec_lines_decreases
{
    if b.len() == 0 {
        Seq::empty()
    } else {
        let d = find_byte_from(b, 10, 0);
        if d == b.len() {
            seq![b]
        } else {
            seq![strip_cr(b.subrange(0, d))] + spec_lines(b.subrange(d + 1, b.len() as int))
        }
    }
}

#[via_fn]
proof fn spec_lines_decreases(b: Seq<u8>) {
    if b.len() > 0 {
        lemma_find_byte_from(b, 10, 0);
    }
}

/// The views of a run of byte lines.
pub open spec fn byte_views(s: Seq<Vec<u8>>) -> Seq<Seq<u8>> {
    Seq::new(s.len(), |i: int| s[i]@)
}

/// Index of the first occurrence of `x` (runtime form of
/// `find_byte_from`).
fn find_byte_exec(b: &[u8], x: u8) -> (r: usize)
    ensures
        r as int == find_byte_from(b@, x, 0),
        r <= b@.len(),
{
    let blen = b.len();
    let mut i: usize = 0;
    while i < blen
        invariant
            i <= blen,
            blen == b@.len(),
            find_byte_from(b@, x, 0) == find_byte_from(b@, x, i as int),
        decreases blen - i
    {
        if *vstd::slice::slice_index_get(b, i) == x {
            return i;
        }
        i += 1;
    }
    i
}

/// Splits a decompressed stream into lines (runtime form of
/// `spec_lines`).
fn split_lines(b: &[u8]) -> (r: Vec<Vec<u8>>)
    ensures
        byte_views(r@) == spec_lines(b@),
    decreases b@.len()
{
    let blen = b.len();
    if blen == 0 {
        let v: Vec<Vec<u8>> = Vec::new();
        proof {
            assert(byte_views(v@) =~= spec_lines(b@));
        }
        return v;
    }
    let d = find_byte_exec(b, 10);
    if d == blen {
        let mut v: Vec<Vec<u8>> = Vec::new();
        v.push(slice_to_vec(b));
        proof {
            assert(byte_views(v@) =~= spec_lines(b@));
        }
        v
    } else {
        let end = if d > 0 && *vstd::slice::slice_index_get(b, d - 1) == 13 {
            d - 1
        } else {
            d
        };
        let head = slice_to_vec(slice_subrange(b, 0, end));
        proof {
            assert(head@ =~= strip_cr(b@.subrange(0, d as int)));
        }
        let mut rest = split_lines(slice_subrange(b, d + 1, blen));
        let ghost restv = rest@;
        let mut v: Vec<Vec<u8>> = Vec::new();
        v.push(head);
        v.append(&mut rest);
        proof {
            assert forall|k: int| 0 <= k < v@.len() implies #[trigger] byte_views(v@)[k]
                == spec_lines(b@)[k] by {
                if k > 0 {
                    assert(v@[k] == restv[k - 1]);
                    assert(byte_views(restv)[k - 1] == restv[k - 1]@);
                }
            }
            assert(byte_views(v@) =~= spec_lines(b@));
        }
        v
    }
}

// ---------------------------------------------------------------------------
// The per-event pipeline
// ---------------------------------------------------------------------------

/// The architecture recorded on an entity: the inferred one, defaulted
/// to x86_64 under the `all` and `x86_64` filter modes.
pub open spec fn spec_arch_final(mode: Arch, name: Seq<char>) -> Option<Seq<char>> {
    match arch_of(name) {
        Some(a) => Some(a),
        None => match mode {
            Arch::Aarch64 => None,
            _ => Some("x86_64"@),
        },
    }
}

/// The entity built for one accepted asset of one event.
pub open spec fn spec_entity(repo: Seq<char>, rel: ReleaseRecordV, a: AssetV, mode: Arch) -> ReleaseV {
    ReleaseV {
        repo: repo,
        release_name: rel.name,
        tag_name: rel.tag_name,
        published_at: match rel.published_at {
            Some(p) => p,
            None => Seq::empty(),
        },
        appimage_name: a.name,
        download_url: a.download_url,
        architecture: spec_arch_final(mode, a.name),
        package_name: pkg_of(repo),
        version: spec_version4(rel.tag_name, Some(a.name)),
    }
}

/// The shape every emitted entity has: the package identity derived
/// from its repository, an architecture from the closed set, and a
/// well-formed four-group version.
pub open spec fn wf_entity(e: ReleaseV) -> bool {
    &&& e.package_name == pkg_of(e.repo)
    &&& (e.architecture == Some("x86_64"@) || e.architecture == Some("aarch64"@)
        || e.architecture is None)
    &&& version_wf(e.version)
}

/// The entities one event line yields: none unless it is a release
/// event inside the window with a usable payload that the classifier
/// and the continuous-release detector let through; else one entity per
/// kept asset, in asset order.
pub open spec fn spec_event_entities(
    ev: EventRecordV,
    start: Timestamp,
    end: Timestamp,
    cs: bool,
    mode: Arch,
) -> Seq<ReleaseV> {
    if ev.event_type != Some("ReleaseEvent"@) {
        Seq::empty()
    } else if ev.created_at is None || spec_parse_ts(ev.created_at->0) is None {
        Seq::empty()
    } else if spec_parse_ts(ev.created_at->0)->0.enc() < start.enc() || spec_parse_ts(
        ev.created_at->0)->0.enc() > end.enc() {
        Seq::empty()
    } else if ev.release is None || ev.release->0.assets is None {
        Seq::empty()
    } else {
        let kept = spec_filter(ev.release->0.assets->0, cs, mode);
        let name = match ev.release->0.name {
            Some(n) => n,
            None => Seq::empty(),
        };
        if kept.len() == 0 || spec_is_continuous(name, kept) || ev.repo_name is None {
            Seq::empty()
        } else {
            kept.map_values(|a: AssetV| spec_entity(ev.repo_name->0, ev.release->0, a, mode))
        }
    }
}

/// An event yields either nothing or exactly one entity per accepted
/// asset, in asset order.
pub proof fn lemma_one_entity_per_asset(
    ev: EventRecordV,
    start: Timestamp,
    end: Timestamp,
    cs: bool,
    mode: Arch,
)
    requires
        ev.release is Some,
        ev.release->0.assets is Some,
    ensures
        spec_event_entities(ev, start, end, cs, mode).len() == 0 || spec_event_entities(
            ev, start, end, cs, mode).len() == spec_filter(ev.release->0.assets->0, cs,
            mode).len(),
{
}

/// Builds the entity for one accepted asset (runtime form of
/// `spec_entity`); the result carries the entity shape invariant.
fn entity_of(repo: &String, rel: &ReleaseRecord, a: &Asset, mode: &Arch) -> (r: AppImageRelease)
    ensures
        r@ == spec_entity(repo@, rel@, a@, *mode),
        wf_entity(r@),
{
    let architecture = match extract_architecture(a.name.as_str()) {
        Some(x) => Some(x),
        None => match mode {
            Arch::Aarch64 => None,
            _ => Some(String::from_str("x86_64")),
        },
    };
    let version = extract_version_4digit(
        match &rel.tag_name {
            Some(t) => Some(t.as_str()),
            None => None,
        },
        Some(a.name.as_str()),
    );
    proof {
        lemma_version4_wf(opt_view(rel.tag_name), Some(a.name@));
    }
    let r = AppImageRelease {
        repo: repo.clone(),
        release_name: crate::model::clone_opt_string(&rel.name),
        tag_name: crate::model::clone_opt_string(&rel.tag_name),
        published_at: match &rel.published_at {
            Some(p) => p.clone(),
            None => String::new(),
        },
        appimage_name: a.name.clone(),
        download_url: a.download_url.clone(),
        architecture,
        package_name: get_package_name(repo.as_str()),
        version,
    };
    r
}

/// Turns one event record into its entities (runtime form of
/// `spec_event_entities`); every entity carries the shape invariant.
pub fn event_entities(
    ev: &EventRecord,
    start: &Timestamp,
    end: &Timestamp,
    include_checksums: bool,
    target_arch: &Arch,
) -> (r: Vec<AppImageRelease>)
    requires
        start.wf(),
        end.wf(),
    ensures
        entity_views(r@) == spec_event_entities(ev@, *start, *end, include_checksums, *target_arch),
        forall|k: int| 0 <= k < r@.len() ==> wf_entity(#[trigger] r@[k]@),
{
    let ghost evv = ev@;
    proof {
        assert(entity_views(Seq::<AppImageRelease>::empty()) =~= Seq::<ReleaseV>::empty());
    }
    let mut is_release = false;
    if let Some(t) = &ev.event_type {
        if str_eq(t.as_str(), "ReleaseEvent") {
            is_release = true;
        }
    }
    if !is_release {
        return Vec::new();
    }
    let created = match &ev.created_at {
        Some(s) => s,
        None => {
            return Vec::new();
        },
    };
    let dt = match parse_wire_ts(created.as_str()) {
        Some(t) => t,
        None => {
            return Vec::new();
        },
    };
    if ts_lt(&dt, start) || ts_lt(end, &dt) {
        return Vec::new();
    }
    let rel = match &ev.release {
        Some(r) => r,
        None => {
            return Vec::new();
        },
    };
    let assets = match &rel.assets {
        Some(a) => a,
        None => {
            return Vec::new();
        },
    };
    let kept = filter_appimages(assets, include_checksums, target_arch);
    if kept.len() == 0 {
        proof {
            assert(spec_filter(evv.release->0.assets->0, include_checksums, *target_arch).len()
                == 0);
        }
        return Vec::new();
    }
    let empty_name = String::new();
    let rel_name = match &rel.name {
        Some(s) => s,
        None => &empty_name,
    };
    if is_continuous_release(rel_name.as_str(), &kept) {
        return Vec::new();
    }
    let repo = match &ev.repo_name {
        Some(s) => s,
        None => {
            return Vec::new();
        },
    };
    let ghost keptv = spec_filter(evv.release->0.assets->0, include_checksums, *target_arch);
    let ghost want = keptv.map_values(
        |a: AssetV| spec_entity(evv.repo_name->0, evv.release->0, a, *target_arch),
    );
    let mut out: Vec<AppImageRelease> = Vec::new();
    let mut i: usize = 0;
    proof {
        assert(asset_views(kept@) == keptv);
        assert(want.len() == keptv.len());
    }
    while i < kept.len()
        invariant
            i <= kept@.len(),
            asset_views(kept@) == keptv,
            want.len() == keptv.len(),
            out@.len() == i,
            rel@ == evv.release->0,
            repo@ == evv.repo_name->0,
            want == keptv.map_values(
                |a: AssetV| spec_entity(evv.repo_name->0, evv.release->0, a, *target_arch)),
            forall|k: int| 0 <= k < i ==> #[trigger] out@[k]@ == want[k],
            forall|k: int| 0 <= k < i ==> wf_entity(#[trigger] out@[k]@),
        decreases kept@.len() - i
    {
        let e = entity_of(repo, rel, &kept[i], target_arch);
        proof {
            assert(keptv[i as int] == kept@[i as int]@);
            assert(want[i as int] == spec_entity(evv.repo_name->0, evv.release->0,
                keptv[i as int], *target_arch));
        }
        out.push(e);
        i += 1;
    }
    proof {
        assert(entity_views(out@) =~= want);
    }
    out
}

/// Why processing one dump file stops: the stream is not valid gzip,
/// or a decompressed line is not valid JSON.
#[derive(Clone, Copy, Debug, PartialEq, Eq, Structural)]
pub enum ProcessError {
    Decompress,
    MalformedLine,
}

/// Every line of a decompressed stream is well-formed JSON.
pub open spec fn all_lines_parse(lines: Seq<Seq<u8>>) -> bool {
    forall|k: int| 0 <= k < lines.len() ==> #[trigger] event_of(lines[k]) is Some
}

/// Index of the first line that is not well-formed JSON, at or after
/// `i`; the line count when every line parses.
pub open spec fn first_bad_from(lines: Seq<Seq<u8>>, i: int) -> int
    decreases lines.len() - i when 0 <= i <= lines.len()
{
    if i >= lines.len() {
        lines.len() as int
    } else if event_of(lines[i]) is None {
        i
    } else {
        first_bad_from(lines, i + 1)
    }
}

/// The entities of the first `n` lines of a decompressed stream, in
/// line order.
pub open spec fn spec_entities_upto(
    lines: Seq<Seq<u8>>,
    n: int,
    start: Timestamp,
    end: Timestamp,
    cs: bool,
    mode: Arch,
) -> Seq<ReleaseV>
    decreases n
{
    if n <= 0 {
        Seq::empty()
    } else {
        spec_entities_upto(lines, n - 1, start, end, cs, mode) + (match event_of(lines[n - 1]) {
            Some(ev) => spec_event_entities(ev, start, end, cs, mode),
            None => Seq::empty(),
        })
    }
}

/// The entities of a whole decompressed stream, in line order.
pub open spec fn spec_stream_entities(
    lines: Seq<Seq<u8>>,
    start: Timestamp,
    end: Timestamp,
    cs: bool,
    mode: Arch,
) -> Seq<ReleaseV> {
    spec_entities_upto(lines, lines.len() as int, start, end, cs, mode)
}

/// An empty decompressed stream has no lines, every one of which
/// (vacuously) parses, and yields no entities: a run over an empty
/// window owes success and appends nothing.
pub proof fn lemma_empty_stream(start: Timestamp, end: Timestamp, cs: bool, mode: Arch)
    ensures
        spec_lines(Seq::<u8>::empty()) == Seq::<Seq<u8>>::empty(),
        all_lines_parse(Seq::<Seq<u8>>::empty()),
        spec_stream_entities(Seq::<Seq<u8>>::empty(), start, end, cs, mode) == Seq::<
            ReleaseV,
        >::empty(),
{
}

/// Processes one compressed hourly dump: decompresses, splits lines,
/// reads each line as an event record, and appends the entities of the
/// events that pass the window, the classifier and the detector.
/// Success is owed exactly when the stream is valid gzip and every
/// line parses; then exactly the stream's entities are appended, in
/// line order. A decompression or line-parse failure is fatal to the
/// file; the entities of the lines before the first bad line stay.
pub fn process_file(
    data: &[u8],
    start: &Timestamp,
    end: &Timestamp,
    include_checksums: bool,
    target_arch: &Arch,
    results: &mut Vec<AppImageRelease>,
) -> (r: Result<(), ProcessError>)
    requires
        start.wf(),
        end.wf(),
    ensures
        old(results)@.len() <= final(results)@.len(),
        forall|k: int| 0 <= k < old(results)@.len() ==> final(results)@[k] == old(results)@[k],
        forall|k: int|
            old(results)@.len() <= k < final(results)@.len() ==> wf_entity(
                #[trigger] final(results)@[k]@),
        (r == Err::<(), ProcessError>(ProcessError::Decompress)) <==> gunzip_of(data@) is None,
        gunzip_of(data@) is None ==> final(results)@ == old(results)@,
        r is Ok <==> (gunzip_of(data@) matches Some(b) && all_lines_parse(spec_lines(b))),
        r is Ok ==> entity_views(final(results)@) == entity_views(old(results)@)
            + spec_stream_entities(spec_lines(gunzip_of(data@)->0), *start, *end,
            include_checksums, *target_arch),
        r == Err::<(), ProcessError>(ProcessError::MalformedLine) ==> (gunzip_of(data@)
            matches Some(b) && !all_lines_parse(spec_lines(b)) && entity_views(
            final(results)@) == entity_views(old(results)@) + spec_entities_upto(
            spec_lines(b), first_bad_from(spec_lines(b), 0), *start, *end, include_checksums,
            *target_arch)),
{
    let bytes = match gunzip(data) {
        Some(v) => v,
        None => {
            return Err(ProcessError::Decompress);
        },
    };
    let ghost bts = bytes@;
    let lines = split_lines(bytes.as_slice());
    let ghost ls = spec_lines(bts);
    let mut i: usize = 0;
    proof {
        assert(entity_views(results@) =~= entity_views(old(results)@) + spec_entities_upto(
            ls, 0, *start, *end, include_checksums, *target_arch));
    }
    while i < lines.len()
        invariant
            i <= lines@.len(),
            start.wf(),
            end.wf(),
            gunzip_of(data@) == Some(bts),
            byte_views(lines@) == ls,
            ls == spec_lines(bts),
            forall|k: int| 0 <= k < i ==> #[trigger] event_of(ls[k]) is Some,
            first_bad_from(ls, 0) == first_bad_from(ls, i as int),
            old(results)@.len() <= results@.len(),
            forall|k: int| 0 <= k < old(results)@.len() ==> results@[k] == old(results)@[k],
            entity_views(results@) == entity_views(old(results)@) + spec_entities_upto(
                ls, i as int, *start, *end, include_checksums, *target_arch),
            forall|k: int|
                old(results)@.len() <= k < results@.len() ==> wf_entity(
                    #[trigger] results@[k]@),
        decreases lines@.len() - i
    {
        proof {
            assert(ls[i as int] == lines@[i as int]@);
        }
        let record = match read_event(lines[i].as_slice()) {
            Some(ev) => ev,
            None => {
                proof {
                    assert(first_bad_from(ls, i as int) == i as int);
                    assert(!(event_of(ls[i as int]) is Some));
                }
                return Err(ProcessError::MalformedLine);
            },
        };
        proof {
            assert(event_of(ls[i as int]) == Some(record@));
        }
        let mut es = event_entities(&record, start, end, include_checksums, target_arch);
        let ghost esv = es@;
        proof {
            assert(spec_entities_upto(ls, i as int + 1, *start, *end, include_checksums,
                *target_arch) == spec_entities_upto(ls, i as int, *start, *end,
                include_checksums, *target_arch) + entity_views(esv));
        }
        let ghost before = results@;
        results.append(&mut es);
        proof {
            assert(entity_views(results@) =~= entity_views(before) + entity_views(esv));
        }
        i += 1;
    }
    proof {
        assert(all_lines_parse(ls));
    }
    Ok(())
}

} // verus!
