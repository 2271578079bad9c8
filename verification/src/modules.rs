//! Module coalescing: the file-backed mappings of a process, grouped into
//! one record per loaded module.
use crate::coalesce::{
    coalesce, coalesce_onto, keeps_head, carries, lemma_coalesce_carries, lemma_coalesce_idempotent,
    lemma_filter_all, lemma_filter_skip,
};
use crate::mapping::RawMapping;
use crate::region::PERM_NONE;
use vstd::prelude::*;

verus! {

/// The mappings that take part in module coalescing: those a file backs.
pub open spec fn file_backed() -> spec_fn(RawMapping) -> bool {
    |m: RawMapping| m.backing.is_file()
}

/// Two adjacent file mappings belong to one module when the second starts
/// where the first ends and both lie on the same device and inode. The file
/// offset plays no part: one module may be mapped at several offsets. The
/// joined record spans both, keeps the identity, offset and backing of the
/// first, and carries no permissions of its own.
pub open spec fn joined_modules(first: RawMapping, second: RawMapping) -> Option<RawMapping> {
    if first.end == second.start && first.dev == second.dev && first.inode == second.inode {
        Some(
            RawMapping {
                start: first.start,
                end: second.end,
                perms: PERM_NONE,
                offset: first.offset,
                dev: first.dev,
                inode: first.inode,
                backing: first.backing,
            },
        )
    } else {
        None
    }
}

/// The merge rule of module coalescing.
pub open spec fn module_rule() -> spec_fn(RawMapping, RawMapping) -> Option<RawMapping> {
    |first: RawMapping, second: RawMapping| joined_modules(first, second)
}

/// The module list of a process whose mappings are `maps`, in the order the
/// operating system lists them: mappings that no file backs are left out,
/// and each run of adjacent mappings of one file becomes one record.
pub open spec fn module_list(maps: Seq<RawMapping>) -> Seq<RawMapping> {
    coalesce(maps.filter(file_backed()), module_rule())
}

/// Joins two adjacent mappings of one module, or hands both back unchanged.
pub fn merge_modules(first: RawMapping, second: RawMapping) -> (r: Result<
    RawMapping,
    (RawMapping, RawMapping),
>)
    ensures
        r == match joined_modules(first, second) {
            Some(joined) => Ok::<RawMapping, (RawMapping, RawMapping)>(joined),
            None => Err::<RawMapping, (RawMapping, RawMapping)>((first, second)),
        },
{
    if first.end == second.start && first.dev.0 == second.dev.0 && first.dev.1 == second.dev.1
        && first.inode == second.inode {
        Ok(
            RawMapping {
                start: first.start,
                end: second.end,
                perms: PERM_NONE,
                offset: first.offset,
                dev: first.dev,
                inode: first.inode,
                backing: first.backing,
            },
        )
    } else {
        Err((first, second))
    }
}

/// What a pass that holds `pending` and has read the first `read` of `maps`
/// will still emit.
pub open spec fn modules_to_come(pending: Option<RawMapping>, maps: Seq<RawMapping>, read: int) -> Seq<
    RawMapping,
> {
    match pending {
        Some(acc) => coalesce_onto(acc, maps.skip(read).filter(file_backed()), module_rule()),
        None => coalesce(maps.skip(read).filter(file_backed()), module_rule()),
    }
}

/// Computes the module list of `maps` in one pass.
pub fn coalesce_modules(maps: &Vec<RawMapping>) -> (out: Vec<RawMapping>)
    ensures
        out@ == module_list(maps@),
{
    let mut out: Vec<RawMapping> = Vec::new();
    let mut pending: Option<RawMapping> = None;
    let mut i: usize = 0;
    assert(maps@.skip(0) =~= maps@);
    while i < maps.len()
        invariant
            i <= maps.len(),
            out@ + modules_to_come(pending, maps@, i as int) == module_list(maps@),
        decreases maps.len() - i,
    {
        proof {
            lemma_filter_skip(maps@, i as int, file_backed());
        }
        let ghost later = maps@.skip(i + 1).filter(file_backed());
        if maps[i].backing.file_backed() {
            let next = maps[i].clone();
            assert((seq![next] + later).drop_first() =~= later);
            match pending {
                None => {
                    pending = Some(next);
                },
                Some(acc) => {
                    match merge_modules(acc, next) {
                        Ok(joined) => {
                            pending = Some(joined);
                        },
                        Err((done, fresh)) => {
                            assert(out@.push(done) + coalesce_onto(fresh, later, module_rule())
                                =~= out@ + (seq![done] + coalesce_onto(
                                fresh,
                                later,
                                module_rule(),
                            )));
                            out.push(done);
                            pending = Some(fresh);
                        },
                    }
                },
            }
        } else {
            assert(Seq::<RawMapping>::empty() + later =~= later);
        }
        i = i + 1;
    }
    proof {
        assert(maps@.skip(i as int) =~= Seq::<RawMapping>::empty());
        assert(maps@.skip(i as int).filter(file_backed()).len() == 0) by {
            maps@.skip(i as int).lemma_filter_len(file_backed());
        }
    }
    match pending {
        Some(last) => {
            assert(out@.push(last) =~= out@ + seq![last]);
            out.push(last);
        },
        None => {
            assert(out@ + Seq::<RawMapping>::empty() =~= out@);
        },
    }
    out
}

/// Joining two mappings of a module keeps the start and the identity of the
/// first, which is all that decides a merge from the left.
pub proof fn lemma_module_rule_keeps_head()
    ensures
        keeps_head(module_rule()),
{
    assert forall|a: RawMapping, b: RawMapping, c: RawMapping|
        #![trigger module_rule()(a, b), module_rule()(b, c)]
        module_rule()(b, c) is Some implies (module_rule()(a, module_rule()(b, c).unwrap()) is Some
        <==> module_rule()(a, b) is Some) by {}
}

/// Every record of a module list is backed by a file.
pub proof fn lemma_module_list_file_backed(maps: Seq<RawMapping>)
    ensures
        forall|i: int|
            0 <= i < module_list(maps).len() ==> (#[trigger] module_list(maps)[i]).backing.is_file(),
{
    let files = maps.filter(file_backed());
    assert forall|i: int| 0 <= i < files.len() implies #[trigger] file_backed()(files[i]) by {
        maps.lemma_filter_pred(file_backed(), i);
    }
    assert(carries(module_rule(), file_backed())) by {
        assert forall|a: RawMapping, b: RawMapping|
            #![trigger module_rule()(a, b)]
            file_backed()(a) && file_backed()(b) && module_rule()(a, b) is Some implies file_backed()(
            module_rule()(a, b).unwrap(),
        ) by {}
    }
    lemma_coalesce_carries(files, module_rule(), file_backed());
    assert forall|i: int| 0 <= i < module_list(maps).len() implies (#[trigger] module_list(
        maps,
    )[i]).backing.is_file() by {
        assert(file_backed()(module_list(maps)[i]));
    }
}

/// Module coalescing is idempotent: the module list of a module list is that
/// list, unchanged.
pub proof fn lemma_module_list_idempotent(maps: Seq<RawMapping>)
    ensures
        module_list(module_list(maps)) == module_list(maps),
{
    let listed = module_list(maps);
    lemma_module_list_file_backed(maps);
    assert forall|i: int| 0 <= i < listed.len() implies #[trigger] file_backed()(listed[i]) by {
        assert(listed[i].backing.is_file());
    }
    lemma_filter_all(listed, file_backed());
    lemma_module_rule_keeps_head();
    lemma_coalesce_idempotent(maps.filter(file_backed()), module_rule());
}

/// Two adjacent mappings of one file, the second starting where the first
/// ends, on the same device and inode, form one module record: it starts
/// with the first, ends with the second, and its size is the sum of the two.
pub proof fn lemma_contiguous_file_mappings_merge(first: RawMapping, second: RawMapping)
    requires
        first.backing.is_file(),
        second.backing.is_file(),
        first.start <= first.end,
        second.start <= second.end,
        first.end == second.start,
        first.dev == second.dev,
        first.inode == second.inode,
    ensures
        module_list(seq![first, second]).len() == 1,
        module_list(seq![first, second])[0] == joined_modules(first, second).unwrap(),
        module_list(seq![first, second])[0].start == first.start,
        module_list(seq![first, second])[0].end == second.end,
        module_list(seq![first, second])[0].span() == first.span() + second.span(),
{
    let pair = seq![first, second];
    assert(file_backed()(pair[0]) && file_backed()(pair[1]));
    assert forall|i: int| 0 <= i < pair.len() implies #[trigger] file_backed()(pair[i]) by {}
    lemma_filter_all(pair, file_backed());
    assert(pair.drop_first() =~= seq![second]);
    assert(seq![second].drop_first() =~= Seq::<RawMapping>::empty());
    let joined = joined_modules(first, second).unwrap();
    assert(coalesce_onto(joined, Seq::<RawMapping>::empty(), module_rule()) =~= seq![joined]);
    assert(coalesce_onto(first, seq![second], module_rule()) == coalesce_onto(
        joined,
        seq![second].drop_first(),
        module_rule(),
    ));
}

/// Two file mappings that differ in device or inode, or that leave a hole
/// between them, stay two module records, in the order given.
pub proof fn lemma_unrelated_file_mappings_stay(first: RawMapping, second: RawMapping)
    requires
        first.backing.is_file(),
        second.backing.is_file(),
        first.end != second.start || first.dev != second.dev || first.inode != second.inode,
    ensures
        module_list(seq![first, second]) == seq![first, second],
{
    let pair = seq![first, second];
    assert forall|i: int| 0 <= i < pair.len() implies #[trigger] file_backed()(pair[i]) by {}
    lemma_filter_all(pair, file_backed());
    assert(pair.drop_first() =~= seq![second]);
    assert(seq![second].drop_first() =~= Seq::<RawMapping>::empty());
    assert(coalesce_onto(second, Seq::<RawMapping>::empty(), module_rule()) =~= seq![second]);
    assert(coalesce_onto(first, seq![second], module_rule()) == seq![first] + coalesce_onto(
        second,
        seq![second].drop_first(),
        module_rule(),
    ));
    assert(seq![first] + seq![second] =~= pair);
}

} // verus!
