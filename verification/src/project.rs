//! The project: the parsed-unit cache, the line-range table, the
//! dependency-ordered conversion queue, the type mapper and the
//! translators.
use vstd::prelude::*;
use vstd::string::StrSliceExecFns;
use crate::errors::{Error, UnsupportedConstruct};
use crate::solidity;
use crate::sway;
use crate::table::{has_key, insert_spec, lemma_insert_spec, value_of, Table};
use crate::text::str_eq;

verus! {

/// The tail of the line spans of `s`, scanning from character `i` with
/// the current line begun at `start`.
pub open spec fn line_spans_from(s: Seq<char>, i: int, start: int) -> Seq<(usize, usize)>
    decreases s.len() - i,
{
    if i >= s.len() {
        if i > start {
            seq![(start as usize, i as usize)]
        } else {
            Seq::empty()
        }
    } else if s[i] == '\n' {
        seq![(start as usize, i as usize)] + line_spans_from(s, i + 1, i + 1)
    } else {
        line_spans_from(s, i + 1, start)
    }
}

/// The lines of a text, as half-open spans of character indices: every
/// line break closes a span, a final non-empty partial line is one more
/// span, and a text ending exactly on a break has no trailing empty span.
pub open spec fn line_spans(s: Seq<char>) -> Seq<(usize, usize)> {
    line_spans_from(s, 0, 0)
}

/// Computes the line spans of a source text.
pub fn compute_line_ranges(source: &str) -> (r: Vec<(usize, usize)>)
    ensures
        r@ == line_spans(source@),
{
    let n = source.unicode_len();
    let mut r: Vec<(usize, usize)> = Vec::new();
    let mut start: usize = 0;
    let mut i: usize = 0;
    proof {
        assert(line_spans(source@) =~= Seq::empty() + line_spans_from(source@, 0, 0));
    }
    while i < n
        invariant
            n == source@.len(),
            0 <= start <= i <= n,
            line_spans(source@) == r@ + line_spans_from(source@, i as int, start as int),
        decreases n - i,
    {
        if source.get_char(i) == '\n' {
            let ghost r0 = r@;
            r.push((start, i));
            proof {
                assert(r@ + line_spans_from(source@, i + 1, i + 1) =~= r0 + (seq![(start, i)]
                    + line_spans_from(source@, i + 1, i + 1)));
            }
            start = i + 1;
        }
        i += 1;
    }
    if start < n {
        r.push((start, n));
        proof {
            assert(line_spans(source@) =~= r@);
        }
    } else {
        proof {
            assert(line_spans(source@) =~= r@);
        }
    }
    r
}

/// A pair of a source identifier and its canonicalized target spelling.
#[derive(Clone, Debug, PartialEq, Eq)]
pub struct TranslatedIdentifier {
    pub old: String,
    pub new: String,
}

/// A compact record of one translated definition, by kind; the record a
/// later symbol-resolution pass will consume.
#[derive(Clone, Debug, PartialEq, Eq)]
pub enum TranslatedDefinitionData {
    Contract {
        is_abstract: bool,
        name: String,
        /// Each inherited name with the path of the file declaring it.
        inherits: Vec<(String, String)>,
        functions: Vec<crate::sway::Function>,
    },
}

/// A translated function, recorded by name.
#[derive(Clone, Debug, PartialEq, Eq)]
pub struct TranslatedFunction {
    pub name: String,
}

/// The project: the line-range table and the parsed-unit cache, both
/// keyed by canonical path and kept in first-registration order.
pub struct Project {
    pub line_ranges: Table<Vec<(usize, usize)>>,
    pub solidity_source_units: Table<solidity::SourceUnit>,
}

impl Project {
    /// An empty project.
    pub fn new() -> (r: Self)
        ensures
            r.line_ranges@.len() == 0,
            r.solidity_source_units@.len() == 0,
    {
        Project { line_ranges: Table::new(), solidity_source_units: Table::new() }
    }

    /// Registers one parsed source unit under its canonical path,
    /// computing its line spans from the source text. Registering a path
    /// again overwrites both entries in place: the tables never hold two
    /// entries for one path.
    pub fn register_source_unit(
        &mut self,
        path: String,
        source: &str,
        source_unit: solidity::SourceUnit,
    )
        ensures
            final(self).solidity_source_units@ == insert_spec(
                old(self).solidity_source_units@,
                path,
                source_unit,
            ),
            final(self).line_ranges@ == insert_spec(
                old(self).line_ranges@,
                path,
                value_of(final(self).line_ranges@, path@),
            ),
            value_of(final(self).line_ranges@, path@)@ == line_spans(source@),
    {
        let ranges = compute_line_ranges(source);
        proof {
            lemma_insert_spec(self.line_ranges@, path, ranges);
        }
        self.line_ranges.insert(path.clone(), ranges);
        self.solidity_source_units.insert(path, source_unit);
    }

    /// Whether a parsed source unit is cached under the path.
    pub fn contains_source_unit(&self, path: &str) -> (r: bool)
        ensures
            r == has_key(self.solidity_source_units@, path@),
    {
        self.solidity_source_units.contains_key(path)
    }

    /// How many source units are cached.
    pub fn source_unit_count(&self) -> (r: usize)
        ensures
            r == self.solidity_source_units@.len(),
    {
        self.solidity_source_units.len()
    }

    /// The line spans recorded for a path, if the path was registered.
    pub fn line_ranges_for(&self, path: &str) -> (r: Option<&Vec<(usize, usize)>>)
        ensures
            match r {
                Some(v) => has_key(self.line_ranges@, path@) && *v == value_of(
                    self.line_ranges@,
                    path@,
                ),
                None => !has_key(self.line_ranges@, path@),
            },
    {
        self.line_ranges.get(path)
    }
}

/// Law: registering the same canonical path twice leaves the cache
/// exactly as one registration of the later unit does, and in particular
/// never a second entry: the cache stays at the size the first
/// registration gave it.
pub proof fn lemma_register_idempotent(
    m: Seq<(String, solidity::SourceUnit)>,
    path: String,
    u1: solidity::SourceUnit,
    u2: solidity::SourceUnit,
)
    ensures
        insert_spec(insert_spec(m, path, u1), path, u2) == insert_spec(m, path, u2),
        insert_spec(insert_spec(m, path, u1), path, u2).len() == insert_spec(m, path, u1).len(),
{
    crate::table::lemma_insert_spec_idempotent(m, path, u1, u2);
    lemma_insert_spec(m, path, u1);
    lemma_insert_spec(insert_spec(m, path, u1), path, u2);
    lemma_insert_spec(m, path, u2);
}

/// The mapped spelling of a source type name: both spellings of the
/// default-width unsigned integer map to the 64-bit unsigned target type,
/// both spellings of the account-address type map to the target address
/// type, and every other name passes through unchanged.
pub open spec fn map_type_name(s: Seq<char>) -> Seq<char> {
    if s == "uint"@ || s == "uint256"@ {
        "u64"@
    } else if s == "address"@ || s == "address payable"@ {
        "Address"@
    } else {
        s
    }
}

/// Maps a source type name to its target type name.
pub fn translate_type_name(name: &str) -> (r: sway::TypeName)
    ensures
        r.name@ == map_type_name(name@),
{
    if str_eq(name, "uint") || str_eq(name, "uint256") {
        sway::TypeName { name: "u64".to_owned() }
    } else if str_eq(name, "address") || str_eq(name, "address payable") {
        sway::TypeName { name: "Address".to_owned() }
    } else {
        sway::TypeName { name: name.to_owned() }
    }
}

/// Law: both default-integer spellings map to the same 64-bit unsigned
/// target name, both address spellings map to the same target address
/// name, and any other name passes through unchanged.
pub proof fn lemma_type_mapping(s: Seq<char>)
    ensures
        map_type_name("uint"@) == map_type_name("uint256"@),
        map_type_name("uint"@) == "u64"@,
        map_type_name("address"@) == map_type_name("address payable"@),
        map_type_name("address"@) == "Address"@,
        s != "uint"@ && s != "uint256"@ && s != "address"@ && s != "address payable"@
            ==> map_type_name(s) == s,
{
    reveal_strlit("uint");
    reveal_strlit("uint256");
    reveal_strlit("address");
    reveal_strlit("address payable");
    reveal_strlit("u64");
    reveal_strlit("Address");
    assert("address"@.len() == 7);
    assert("address payable"@.len() == 15);
    assert("uint"@.len() == 4);
    assert("uint256"@.len() == 7);
    assert("address"@[0] == 'a' && "uint256"@[0] == 'u');
}

/// The specifier of an import directive, whatever its form.
pub open spec fn import_path_of(i: solidity::Import) -> solidity::ImportPath {
    match i {
        solidity::Import::Plain(p) => p,
        solidity::Import::GlobalSymbol(p) => p,
        solidity::Import::Rename(p) => p,
    }
}

/// The import filenames of a unit's parts in order, or the first
/// unsupported non-file specifier.
pub open spec fn unit_import_filenames(parts: Seq<solidity::SourceUnitPart>) -> Result<
    Seq<String>,
    Error,
>
    decreases parts.len(),
{
    if parts.len() == 0 {
        Ok(Seq::empty())
    } else {
        match unit_import_filenames(parts.drop_last()) {
            Err(e) => Err(e),
            Ok(pre) => match parts.last() {
                solidity::SourceUnitPart::ImportDirective(imp) => match import_path_of(imp) {
                    solidity::ImportPath::Filename(f) => Ok(pre.push(f)),
                    solidity::ImportPath::Path(_) => Err(
                        Error::UnsupportedConstruct(UnsupportedConstruct::ImportPathSpecifier),
                    ),
                },
                _ => Ok(pre),
            },
        }
    }
}

/// The filenames paired with one directory, as character sequences.
pub open spec fn filename_refs(dir: Seq<char>, fs: Seq<String>) -> Seq<(Seq<char>, Seq<char>)> {
    fs.map_values(|f: String| (dir, f@))
}

/// Every import of every cached unit, in cache order, as a pair of the
/// importing file's directory and the imported filename (both as
/// character sequences), or the first unsupported specifier.
pub open spec fn project_import_refs(units: Seq<(String, solidity::SourceUnit)>) -> Result<
    Seq<(Seq<char>, Seq<char>)>,
    Error,
>
    decreases units.len(),
{
    if units.len() == 0 {
        Ok(Seq::empty())
    } else {
        match project_import_refs(units.drop_last()) {
            Err(e) => Err(e),
            Ok(pre) => match unit_import_filenames(units.last().1.parts@) {
                Err(e) => Err(e),
                Ok(fs) => Ok(pre + filename_refs(
                    crate::text::parent_dir_spec(units.last().0@),
                    fs,
                )),
            },
        }
    }
}

/// One import to resolve: the importing file's directory, and the
/// imported filename relative to it.
#[derive(Clone, Debug, PartialEq, Eq)]
pub struct ImportReference {
    pub directory: String,
    pub filename: String,
}

/// The directory and filename characters of each reference.
pub open spec fn ref_views(refs: Seq<ImportReference>) -> Seq<(Seq<char>, Seq<char>)> {
    refs.map_values(|ir: ImportReference| (ir.directory@, ir.filename@))
}

proof fn lemma_unit_filenames_err_persists(parts: Seq<solidity::SourceUnitPart>, j: int)
    requires
        0 <= j <= parts.len(),
        unit_import_filenames(parts.take(j)) is Err,
    ensures
        unit_import_filenames(parts) == unit_import_filenames(parts.take(j)),
    decreases parts.len() - j,
{
    if j < parts.len() {
        assert(parts.take(j + 1).drop_last() =~= parts.take(j));
        lemma_unit_filenames_err_persists(parts, j + 1);
    } else {
        assert(parts.take(j) =~= parts);
    }
}

proof fn lemma_project_refs_err_persists(units: Seq<(String, solidity::SourceUnit)>, i: int)
    requires
        0 <= i <= units.len(),
        project_import_refs(units.take(i)) is Err,
    ensures
        project_import_refs(units) == project_import_refs(units.take(i)),
    decreases units.len() - i,
{
    if i < units.len() {
        assert(units.take(i + 1).drop_last() =~= units.take(i));
        lemma_project_refs_err_persists(units, i + 1);
    } else {
        assert(units.take(i) =~= units);
    }
}

impl Project {
    /// Scans every cached source unit, in cache order, for its import
    /// directives. Each yields the importing file's directory and the
    /// imported filename; an import whose specifier is not a plain
    /// filename is the first error.
    pub fn import_references(&self) -> (r: Result<Vec<ImportReference>, Error>)
        ensures
            match r {
                Ok(refs) => project_import_refs(self.solidity_source_units@) == Ok::<
                    Seq<(Seq<char>, Seq<char>)>,
                    Error,
                >(ref_views(refs@)),
                Err(e) => project_import_refs(self.solidity_source_units@) == Err::<
                    Seq<(Seq<char>, Seq<char>)>,
                    Error,
                >(e),
            },
    {
        let ghost units = self.solidity_source_units@;
        let mut refs: Vec<ImportReference> = Vec::new();
        let n = self.solidity_source_units.len();
        let mut i: usize = 0;
        proof {
            assert(units.take(0int) =~= Seq::empty());
            assert(ref_views(refs@) =~= Seq::<(Seq<char>, Seq<char>)>::empty());
        }
        while i < n
            invariant
                units == self.solidity_source_units@,
                n == units.len(),
                0 <= i <= n,
                project_import_refs(units.take(i as int)) == Ok::<
                    Seq<(Seq<char>, Seq<char>)>,
                    Error,
                >(ref_views(refs@)),
            decreases n - i,
        {
            let entry = self.solidity_source_units.entry_at(i);
            let dir = crate::text::parent_dir(entry.0.as_str());
            let ghost parts = entry.1.parts@;
            let ghost refs0 = refs@;
            let m = entry.1.parts.len();
            let mut j: usize = 0;
            proof {
                assert(parts.take(0int) =~= Seq::empty());
                assert(unit_import_filenames(parts.take(0int)) == Ok::<Seq<String>, Error>(
                    Seq::empty(),
                ));
                assert(ref_views(refs@) =~= ref_views(refs0) + filename_refs(
                    dir@,
                    Seq::empty(),
                ));
            }
            while j < m
                invariant
                    units == self.solidity_source_units@,
                    project_import_refs(units.take(i as int)) == Ok::<
                        Seq<(Seq<char>, Seq<char>)>,
                        Error,
                    >(ref_views(refs0)),
                    i < units.len(),
                    n == units.len(),
                    *entry == units[i as int],
                    dir@ == crate::text::parent_dir_spec(entry.0@),
                    parts == entry.1.parts@,
                    m == parts.len(),
                    0 <= j <= m,
                    unit_import_filenames(parts.take(j as int)) is Ok,
                    ref_views(refs@) == ref_views(refs0) + filename_refs(
                        dir@,
                        unit_import_filenames(parts.take(j as int)).unwrap(),
                    ),
                decreases m - j,
            {
                let ghost jj = j as int;
                proof {
                    assert(parts.take(jj + 1).drop_last() =~= parts.take(jj));
                    assert(parts.take(jj + 1).last() == parts[jj]);
                }
                match &entry.1.parts[j] {
                    solidity::SourceUnitPart::ImportDirective(imp) => {
                        let ip = match imp {
                            solidity::Import::Plain(p) => p,
                            solidity::Import::GlobalSymbol(p) => p,
                            solidity::Import::Rename(p) => p,
                        };
                        match ip {
                            solidity::ImportPath::Filename(f) => {
                                let ghost rb = refs@;
                                refs.push(
                                    ImportReference {
                                        directory: dir.clone(),
                                        filename: f.clone(),
                                    },
                                );
                                proof {
                                    assert(ref_views(refs@) =~= ref_views(rb).push(
                                        (dir@, refs@.last().filename@),
                                    ));
                                    let fs = unit_import_filenames(parts.take(jj)).unwrap();
                                    assert(unit_import_filenames(parts.take(jj + 1))
                                        == Ok::<Seq<String>, Error>(fs.push(refs@.last().filename)));
                                    assert(filename_refs(dir@, fs.push(refs@.last().filename))
                                        =~= filename_refs(dir@, fs).push(
                                        (dir@, refs@.last().filename@),
                                    ));
                                    assert(ref_views(refs@) =~= ref_views(refs0) + filename_refs(
                                        dir@,
                                        unit_import_filenames(parts.take(jj + 1)).unwrap(),
                                    ));
                                }
                            },
                            solidity::ImportPath::Path(_) => {
                                proof {
                                    lemma_unit_filenames_err_persists(parts, jj + 1);
                                    assert(units.take(i + 1).drop_last() =~= units.take(
                                        i as int,
                                    ));
                                    assert(units.take(i + 1).last() == units[i as int]);
                                    lemma_project_refs_err_persists(units, i + 1);
                                }
                                return Err(
                                    Error::UnsupportedConstruct(
                                        UnsupportedConstruct::ImportPathSpecifier,
                                    ),
                                );
                            },
                        }
                    },
                    _ => {},
                }
                j += 1;
            }
            proof {
                assert(parts.take(m as int) =~= parts);
                assert(units.take(i + 1).drop_last() =~= units.take(i as int));
                assert(units.take(i + 1).last() == units[i as int]);
            }
            i += 1;
        }
        proof {
            assert(units.take(n as int) =~= units);
        }
        Ok(refs)
    }
}

/// The index of the first element of `q` reading `p`, or `-1`.
pub open spec fn queue_index_of(q: Seq<Seq<char>>, p: Seq<char>) -> int
    decreases q.len(),
{
    if q.len() == 0 {
        -1
    } else if q[0] == p {
        0
    } else {
        let r = queue_index_of(q.drop_first(), p);
        if r < 0 {
            -1
        } else {
            1 + r
        }
    }
}

/// One promotion step: a path already queued is moved to the front, a
/// new path is appended at the back.
pub open spec fn promote(q: Seq<Seq<char>>, p: Seq<char>) -> Seq<Seq<char>> {
    let i = queue_index_of(q, p);
    if i >= 0 {
        seq![p] + q.remove(i)
    } else {
        q.push(p)
    }
}

/// The queue after promoting every path of `ps` in order.
pub open spec fn promote_all(q: Seq<Seq<char>>, ps: Seq<Seq<char>>) -> Seq<Seq<char>>
    decreases ps.len(),
{
    if ps.len() == 0 {
        q
    } else {
        promote_all(promote(q, ps[0]), ps.drop_first())
    }
}

/// The cached paths in cache order, as character sequences.
pub open spec fn unit_keys(units: Seq<(String, solidity::SourceUnit)>) -> Seq<Seq<char>> {
    units.map_values(|e: (String, solidity::SourceUnit)| e.0@)
}

/// The conversion queue: the cached paths in cache order, with every
/// resolved import promoted in scan order.
pub open spec fn conversion_queue_spec(
    units: Seq<(String, solidity::SourceUnit)>,
    resolved: Seq<Seq<char>>,
) -> Seq<Seq<char>> {
    promote_all(unit_keys(units), resolved)
}

proof fn lemma_queue_index_of(q: Seq<Seq<char>>, p: Seq<char>)
    ensures
        queue_index_of(q, p) >= 0 ==> queue_index_of(q, p) < q.len() && q[queue_index_of(q, p)]
            == p,
        forall|j: int| 0 <= j < queue_index_of(q, p) ==> q[j] != p,
        queue_index_of(q, p) < 0 ==> forall|j: int| 0 <= j < q.len() ==> q[j] != p,
    decreases q.len(),
{
    if q.len() > 0 && q[0] != p {
        let d = q.drop_first();
        lemma_queue_index_of(d, p);
        assert forall|j: int| 0 <= j < queue_index_of(q, p) implies q[j] != p by {
            if j > 0 {
                assert(q[j] == d[j - 1]);
            }
        }
        if queue_index_of(q, p) < 0 {
            assert forall|j: int| 0 <= j < q.len() implies q[j] != p by {
                if j > 0 {
                    assert(q[j] == d[j - 1]);
                }
            }
        }
    }
}

impl Project {
    /// Builds the conversion queue. The cached paths seed the queue in
    /// cache order; then each resolved import path, in scan order, is
    /// promoted: moved to the front if already queued, appended at the
    /// back otherwise, so a unit discovered as a dependency is scheduled
    /// ahead of the units that reference it.
    pub fn create_conversion_queue(&self, resolved: &Vec<String>) -> (r: Vec<String>)
        ensures
            r.deep_view() == conversion_queue_spec(
                self.solidity_source_units@,
                resolved.deep_view(),
            ),
    {
        let ghost units = self.solidity_source_units@;
        let mut q: Vec<String> = Vec::new();
        let n = self.solidity_source_units.len();
        let mut i: usize = 0;
        proof {
            assert(q.deep_view() =~= unit_keys(units.take(0int)));
        }
        while i < n
            invariant
                units == self.solidity_source_units@,
                n == units.len(),
                0 <= i <= n,
                q.deep_view() == unit_keys(units.take(i as int)),
            decreases n - i,
        {
            let entry = self.solidity_source_units.entry_at(i);
            let ghost qv = q.deep_view();
            q.push(entry.0.clone());
            proof {
                assert(q.deep_view() =~= qv.push(entry.0@));
                assert(unit_keys(units.take(i + 1)) =~= unit_keys(units.take(i as int)).push(
                    entry.0@,
                ));
                assert(q.deep_view() =~= unit_keys(units.take(i + 1)));
            }
            i += 1;
        }
        proof {
            assert(units.take(n as int) =~= units);
            assert(q.deep_view() =~= unit_keys(units));
        }
        let ghost ps = resolved.deep_view();
        let ghost q0 = q.deep_view();
        let m = resolved.len();
        let mut k: usize = 0;
        proof {
            assert(ps.skip(0int) =~= ps);
        }
        while k < m
            invariant
                ps == resolved.deep_view(),
                m == ps.len(),
                0 <= k <= m,
                promote_all(q0, ps) == promote_all(q.deep_view(), ps.skip(k as int)),
            decreases m - k,
        {
            let ghost qk = q.deep_view();
            let ghost kk = k as int;
            let p = &resolved[k];
            proof {
                assert(p@ == ps[kk]);
            }
            let qlen = q.len();
            let mut idx: usize = 0;
            let mut found = false;
            while idx < qlen && !found
                invariant
                    qk == q.deep_view(),
                    qlen == qk.len(),
                    0 <= idx <= qlen,
                    !found ==> forall|j: int| 0 <= j < idx ==> qk[j] != p@,
                    found ==> idx < qlen && qk[idx as int] == p@ && forall|j: int|
                        0 <= j < idx ==> qk[j] != p@,
                decreases qlen - idx + if found { 0int } else { 1int },
            {
                if str_eq(q[idx].as_str(), p.as_str()) {
                    found = true;
                } else {
                    idx += 1;
                }
            }
            if found {
                proof {
                    lemma_queue_index_of(qk, p@);
                    if queue_index_of(qk, p@) != idx {
                        assert(qk[queue_index_of(qk, p@)] == p@);
                    }
                }
                let _moved = q.remove(idx);
                q.insert(0, p.clone());
                proof {
                    assert(q.deep_view() =~= promote(qk, p@));
                }
            } else {
                proof {
                    lemma_queue_index_of(qk, p@);
                }
                q.push(p.clone());
                proof {
                    assert(q.deep_view() =~= promote(qk, p@));
                }
            }
            proof {
                assert(ps.skip(kk)[0] == ps[kk]);
                assert(ps.skip(kk).drop_first() =~= ps.skip(kk + 1));
                assert(promote_all(qk, ps.skip(kk)) == promote_all(
                    promote(qk, ps[kk]),
                    ps.skip(kk + 1),
                ));
            }
            k += 1;
        }
        proof {
            assert(ps.skip(m as int) =~= Seq::<Seq<char>>::empty());
        }
        q
    }
}

/// Law: for three distinct files where the first imports the second and
/// the second imports the third, the built queue orders the third before
/// the second and the second before the first.
pub proof fn lemma_chain_order(a: Seq<char>, b: Seq<char>, c: Seq<char>)
    requires
        a != b,
        a != c,
        b != c,
    ensures
        promote_all(seq![a, b, c], seq![b, c]) == seq![c, b, a],
{
    let q0 = seq![a, b, c];
    assert(queue_index_of(q0.drop_first(), b) == 0) by {
        assert(q0.drop_first()[0] == b);
    }
    assert(queue_index_of(q0, b) == 1);
    let q1 = promote(q0, b);
    assert(q1 =~= seq![b, a, c]);
    assert(queue_index_of(q1.drop_first().drop_first(), c) == 0) by {
        assert(q1.drop_first().drop_first()[0] == c);
    }
    assert(queue_index_of(q1.drop_first(), c) == 1);
    assert(queue_index_of(q1, c) == 2);
    let q2 = promote(q1, c);
    assert(q2 =~= seq![c, b, a]);
    assert(seq![b, c].drop_first() =~= seq![c]);
    assert(seq![c].drop_first() =~= Seq::<Seq<char>>::empty());
    assert(promote_all(q0, seq![b, c]) == promote_all(q1, seq![b, c].drop_first()));
    assert(promote_all(q1, seq![c]) == promote_all(q2, seq![c].drop_first()));
}

} // verus!
