//! Types of the intermediate representation.
use vstd::prelude::*;
use rustc_hash::FxHashMap;
use vstd::std_specs::cmp::PartialEqSpecImpl;
use crate::fxhash::{attr_map_eq, fx_map_get, fx_map_insert, fx_map_new};
use crate::text::{decimal, lemma_decimal_injective, push_decimal, trim_seps, trim_seps_str};
use crate::arena::{arena_alloc, arena_get, arena_items, arena_len, arena_new, arena_next_id, arena_tag};
use id_arena::Arena;

verus! {

/// The id of a compound type: the tag of the arena that holds it and its
/// position there.
#[derive(Clone, Copy, PartialEq, Eq, Hash, Debug, Structural)]
pub struct CompoundTypeId {
    pub arena_id: u32,
    pub index: usize,
}

#[allow(non_camel_case_types)]
#[derive(Clone, Copy, PartialEq, Eq, Hash, Debug, Structural)]
pub enum Type {
    Void,
    i1,
    i8,
    i32,
    i64,
    F64,
    Pointer(CompoundTypeId),
    Array(CompoundTypeId),
    Function(CompoundTypeId),
    Struct(CompoundTypeId),
}

#[derive(Debug, Clone, Copy, PartialEq, Eq, Default, Structural)]
pub struct ParamAttribute {
    pub byval: bool,
}

pub struct FunctionType {
    pub ret_ty: Type,
    pub params_ty: Vec<Type>,
    pub params_attr: FxHashMap<usize, ParamAttribute>,
}

} // verus!

verus! {

#[derive(Debug, Clone, PartialEq, Eq, Structural)]
pub struct ArrayType {
    pub elem_ty: Type,
    pub len: usize,
}

pub struct StructType {
    fields_ty: Vec<Type>,
    fields_offset: Vec<usize>,
    align: usize,
    size: usize,
}

pub enum CompoundType {
    Pointer(Type),
    Array(ArrayType),
    Function(FunctionType),
    Struct(StructType),
}

/// What a compound type is, with its vectors and map taken by their
/// contents.
pub enum CompoundTypeView {
    Pointer(Type),
    Array(Type, usize),
    /// Return type, parameter types, parameter attributes.
    Function(Type, Seq<Type>, Map<usize, ParamAttribute>),
    /// Field types, field offsets, alignment, size.
    Struct(Seq<Type>, Seq<usize>, usize, usize),
}

impl StructType {
    pub closed spec fn spec_fields(&self) -> Seq<Type> {
        self.fields_ty@
    }

    pub closed spec fn spec_offsets(&self) -> Seq<usize> {
        self.fields_offset@
    }

    pub closed spec fn spec_align(&self) -> usize {
        self.align
    }

    pub closed spec fn spec_size(&self) -> usize {
        self.size
    }
}

impl View for CompoundType {
    type V = CompoundTypeView;

    open spec fn view(&self) -> CompoundTypeView {
        match self {
            CompoundType::Pointer(t) => CompoundTypeView::Pointer(*t),
            CompoundType::Array(a) => CompoundTypeView::Array(a.elem_ty, a.len),
            CompoundType::Function(f) => CompoundTypeView::Function(
                f.ret_ty,
                f.params_ty@,
                f.params_attr@,
            ),
            CompoundType::Struct(s) => CompoundTypeView::Struct(
                s.spec_fields(),
                s.spec_offsets(),
                s.spec_align(),
                s.spec_size(),
            ),
        }
    }
}

fn type_vec_eq(a: &Vec<Type>, b: &Vec<Type>) -> (r: bool)
    ensures
        r == (a@ == b@),
{
    if a.len() != b.len() {
        return false;
    }
    let mut i: usize = 0;
    while i < a.len()
        invariant
            a@.len() == b@.len(),
            0 <= i <= a@.len(),
            forall|j: int| 0 <= j < i ==> a@[j] == b@[j],
        decreases a@.len() - i,
    {
        if a[i] != b[i] {
            return false;
        }
        i = i + 1;
    }
    assert(a@ =~= b@);
    true
}

fn usize_vec_eq(a: &Vec<usize>, b: &Vec<usize>) -> (r: bool)
    ensures
        r == (a@ == b@),
{
    if a.len() != b.len() {
        return false;
    }
    let mut i: usize = 0;
    while i < a.len()
        invariant
            a@.len() == b@.len(),
            0 <= i <= a@.len(),
            forall|j: int| 0 <= j < i ==> a@[j] == b@[j],
        decreases a@.len() - i,
    {
        if a[i] != b[i] {
            return false;
        }
        i = i + 1;
    }
    assert(a@ =~= b@);
    true
}

impl PartialEq for FunctionType {
    fn eq(&self, other: &Self) -> (r: bool) {
        self.ret_ty == other.ret_ty && type_vec_eq(&self.params_ty, &other.params_ty)
            && attr_map_eq(&self.params_attr, &other.params_attr)
    }
}

impl PartialEqSpecImpl for FunctionType {
    open spec fn obeys_eq_spec() -> bool {
        true
    }

    open spec fn eq_spec(&self, other: &FunctionType) -> bool {
        self.ret_ty == other.ret_ty && self.params_ty@ == other.params_ty@
            && self.params_attr@ == other.params_attr@
    }
}

impl Eq for FunctionType {
}

impl PartialEq for StructType {
    fn eq(&self, other: &Self) -> (r: bool) {
        type_vec_eq(&self.fields_ty, &other.fields_ty) && usize_vec_eq(
            &self.fields_offset,
            &other.fields_offset,
        ) && self.align == other.align && self.size == other.size
    }
}

impl PartialEqSpecImpl for StructType {
    open spec fn obeys_eq_spec() -> bool {
        true
    }

    open spec fn eq_spec(&self, other: &StructType) -> bool {
        self.spec_fields() == other.spec_fields() && self.spec_offsets() == other.spec_offsets()
            && self.spec_align() == other.spec_align() && self.spec_size() == other.spec_size()
    }
}

impl Eq for StructType {
}

impl PartialEq for CompoundType {
    fn eq(&self, other: &Self) -> (r: bool) {
        match (self, other) {
            (CompoundType::Pointer(a), CompoundType::Pointer(b)) => *a == *b,
            (CompoundType::Array(a), CompoundType::Array(b)) => a.elem_ty == b.elem_ty && a.len
                == b.len,
            (CompoundType::Function(a), CompoundType::Function(b)) => a.eq(b),
            (CompoundType::Struct(a), CompoundType::Struct(b)) => a.eq(b),
            _ => false,
        }
    }
}

impl PartialEqSpecImpl for CompoundType {
    open spec fn obeys_eq_spec() -> bool {
        true
    }

    open spec fn eq_spec(&self, other: &CompoundType) -> bool {
        self@ == other@
    }
}

impl Eq for CompoundType {
}

} // verus!

verus! {

/// The padding that brings `off` up to a multiple of `align`.
pub open spec fn pad(off: int, align: int) -> int {
    (align - off % align) % align
}

/// Where the first `n` fields end when each field is placed at the next
/// multiple of its alignment after the previous one.
pub open spec fn fields_end(sizes: Seq<usize>, aligns: Seq<usize>, n: nat) -> int
    decreases n,
{
    if n == 0 {
        0
    } else {
        let e = fields_end(sizes, aligns, (n - 1) as nat);
        e + pad(e, aligns[n - 1] as int) + sizes[n - 1]
    }
}

/// The offset of field `i`.
pub open spec fn field_offset(sizes: Seq<usize>, aligns: Seq<usize>, i: nat) -> int {
    let e = fields_end(sizes, aligns, i);
    e + pad(e, aligns[i as int] as int)
}

/// The largest alignment among the first `n` fields, and at least 1.
pub open spec fn max_align(aligns: Seq<usize>, n: nat) -> int
    decreases n,
{
    if n == 0 {
        1
    } else {
        let a = max_align(aligns, (n - 1) as nat);
        if aligns[n - 1] >= a {
            aligns[n - 1] as int
        } else {
            a
        }
    }
}

/// The size of a struct: the end of its last field, padded to its alignment.
pub open spec fn struct_size(sizes: Seq<usize>, aligns: Seq<usize>) -> int {
    let e = fields_end(sizes, aligns, sizes.len());
    e + pad(e, max_align(aligns, sizes.len()))
}

/// The offsets of all fields.
pub open spec fn field_offsets(sizes: Seq<usize>, aligns: Seq<usize>) -> Seq<usize> {
    Seq::new(sizes.len(), |i: int| field_offset(sizes, aligns, i as nat) as usize)
}

/// The field layouts (size and alignment of each field) on which the layout
/// computation divides by no zero and overflows no `usize`.
pub open spec fn layout_ok(sizes: Seq<usize>, aligns: Seq<usize>) -> bool {
    &&& sizes.len() == aligns.len()
    &&& forall|i: int| 0 <= i < aligns.len() ==> aligns[i] > 0
    &&& struct_size(sizes, aligns) <= usize::MAX
}

proof fn lemma_pad(off: int, align: int)
    requires
        0 <= off,
        0 < align,
    ensures
        0 <= pad(off, align) < align,
        (off + pad(off, align)) % align == 0,
{
    let r = off % align;
    vstd::arithmetic::div_mod::lemma_fundamental_div_mod(off, align);
    if r == 0 {
        vstd::arithmetic::div_mod::lemma_mod_self_0(align);
    } else {
        vstd::arithmetic::div_mod::lemma_small_mod((align - r) as nat, align as nat);
        let q = off / align;
        vstd::arithmetic::div_mod::lemma_mod_multiples_basic(q + 1, align);
        assert((q + 1) * align == off + (align - r)) by (nonlinear_arith)
            requires
                off == align * q + r,
        ;
    }
}

proof fn lemma_max_align_pos(aligns: Seq<usize>, n: nat)
    ensures
        max_align(aligns, n) >= 1,
    decreases n,
{
    if n > 0 {
        lemma_max_align_pos(aligns, (n - 1) as nat);
    }
}

/// The end of the fields only grows as fields are added.
proof fn lemma_fields_end_mono(sizes: Seq<usize>, aligns: Seq<usize>, k: nat, n: nat)
    requires
        k <= n <= sizes.len(),
        sizes.len() == aligns.len(),
        forall|i: int| 0 <= i < aligns.len() ==> aligns[i] > 0,
    ensures
        0 <= fields_end(sizes, aligns, k) <= fields_end(sizes, aligns, n),
    decreases n,
{
    if n > k {
        lemma_fields_end_mono(sizes, aligns, k, (n - 1) as nat);
        let e = fields_end(sizes, aligns, (n - 1) as nat);
        lemma_pad(e, aligns[n - 1] as int);
    } else if n > 0 {
        lemma_fields_end_mono(sizes, aligns, (n - 1) as nat, (n - 1) as nat);
        let e = fields_end(sizes, aligns, (n - 1) as nat);
        lemma_pad(e, aligns[n - 1] as int);
    }
}

/// Each field of a struct lies within the struct's size.
proof fn lemma_fields_within(sizes: Seq<usize>, aligns: Seq<usize>, i: nat)
    requires
        i < sizes.len(),
        sizes.len() == aligns.len(),
        forall|j: int| 0 <= j < aligns.len() ==> aligns[j] > 0,
    ensures
        0 <= field_offset(sizes, aligns, i),
        field_offset(sizes, aligns, i) + sizes[i as int] == fields_end(sizes, aligns, i + 1),
        fields_end(sizes, aligns, i + 1) <= struct_size(sizes, aligns),
{
    lemma_fields_end_mono(sizes, aligns, i + 1, sizes.len());
    lemma_fields_end_mono(sizes, aligns, i, i);
    lemma_pad(fields_end(sizes, aligns, i), aligns[i as int] as int);
    lemma_max_align_pos(aligns, sizes.len());
    let e = fields_end(sizes, aligns, sizes.len());
    lemma_fields_end_mono(sizes, aligns, sizes.len(), sizes.len());
    lemma_pad(e, max_align(aligns, sizes.len()));
}

fn padding(off: usize, align: usize) -> (r: usize)
    requires
        align > 0,
    ensures
        r == pad(off as int, align as int),
{
    (align - off % align) % align
}

impl StructType {
    /// Lays out the fields in order, each at the next multiple of its
    /// alignment; `sizes[i]` and `aligns[i]` are the size and alignment of
    /// field `i`.
    pub fn new(fields_ty: Vec<Type>, sizes: &[usize], aligns: &[usize]) -> (s: Self)
        requires
            layout_ok(sizes@, aligns@),
            sizes@.len() == fields_ty@.len(),
        ensures
            s.spec_fields() == fields_ty@,
            s.spec_offsets() == field_offsets(sizes@, aligns@),
            s.spec_size() == struct_size(sizes@, aligns@),
            s.spec_align() == max_align(aligns@, sizes@.len()),
    {
        let mut self_ = StructType { fields_ty, fields_offset: Vec::new(), align: 0, size: 0 };
        self_.compute_elem_offsets(sizes, aligns);
        assert(self_.fields_offset@ =~= field_offsets(sizes@, aligns@));
        self_
    }

    /// Appends the offsets of the fields to the recorded offsets and sets
    /// the size and alignment of the struct.
    pub fn compute_elem_offsets(&mut self, sizes: &[usize], aligns: &[usize])
        requires
            layout_ok(sizes@, aligns@),
            sizes@.len() == old(self).spec_fields().len(),
        ensures
            final(self).spec_fields() == old(self).spec_fields(),
            final(self).spec_offsets() == old(self).spec_offsets() + field_offsets(sizes@, aligns@),
            final(self).spec_size() == struct_size(sizes@, aligns@),
            final(self).spec_align() == max_align(aligns@, sizes@.len()),
    {
        let mut align: usize = 1;
        let mut offset: usize = 0;
        let n = self.fields_ty.len();
        let ghost old_offsets = self.fields_offset@;
        let ghost offs = field_offsets(sizes@, aligns@);
        let mut i: usize = 0;
        while i < n
            invariant
                n == self.fields_ty@.len(),
                n == sizes@.len(),
                layout_ok(sizes@, aligns@),
                offs == field_offsets(sizes@, aligns@),
                self.fields_ty@ == old(self).fields_ty@,
                0 <= i <= n,
                offset == fields_end(sizes@, aligns@, i as nat),
                align == max_align(aligns@, i as nat),
                self.fields_offset@ == old_offsets + offs.take(i as int),
            decreases n - i,
        {
            let fa = aligns[i];
            if fa >= align {
                align = fa;
            }
            let size = sizes[i];
            proof {
                lemma_fields_within(sizes@, aligns@, i as nat);
            }
            offset = offset + padding(offset, fa);
            self.fields_offset.push(offset);
            offset = offset + size;
            proof {
                assert(offs.take(i + 1) =~= offs.take(i as int).push(offs[i as int]));
            }
            i = i + 1;
        }
        proof {
            lemma_max_align_pos(aligns@, n as nat);
            lemma_fields_end_mono(sizes@, aligns@, n as nat, n as nat);
            lemma_pad(offset as int, align as int);
            assert(offs.take(n as int) =~= offs);
        }
        self.size = offset + padding(offset, align);
        self.align = align;
    }

    pub fn size(&self) -> (r: usize)
        ensures
            r == self.spec_size(),
    {
        self.size
    }

    pub fn align(&self) -> (r: usize)
        ensures
            r == self.spec_align(),
    {
        self.align
    }

    /// The offset of field `i`, if one was recorded.
    pub fn get_elem_offset(&self, i: usize) -> (r: Option<&usize>)
        ensures
            r == (if i < self.spec_offsets().len() {
                Some(&self.spec_offsets()[i as int])
            } else {
                None
            }),
    {
        self.fields_offset.get(i)
    }
}

} // verus!

verus! {

proof fn lemma_max_align_ge(aligns: Seq<usize>, n: nat, i: int)
    requires
        0 <= i < n <= aligns.len(),
    ensures
        aligns[i] <= max_align(aligns, n),
    decreases n,
{
    lemma_max_align_pos(aligns, n);
    if i < n - 1 {
        lemma_max_align_ge(aligns, (n - 1) as nat, i);
    }
}

/// Struct layout: each field starts at a multiple of its own alignment; each
/// field ends at or before the next one starts, and the last one within the
/// struct's size; the struct's size is a multiple of its alignment; and the
/// struct's alignment is at least 1 and at least that of every field.
pub proof fn lemma_struct_layout(sizes: Seq<usize>, aligns: Seq<usize>)
    requires
        layout_ok(sizes, aligns),
    ensures
        forall|i: int|
            0 <= i < sizes.len() ==> #[trigger] field_offsets(sizes, aligns)[i] % aligns[i] == 0,
        forall|i: int|
            0 <= i < sizes.len() - 1 ==> #[trigger] field_offsets(sizes, aligns)[i] + sizes[i]
                <= field_offsets(sizes, aligns)[i + 1],
        forall|i: int|
            0 <= i < sizes.len() ==> #[trigger] field_offsets(sizes, aligns)[i] + sizes[i]
                <= struct_size(sizes, aligns),
        struct_size(sizes, aligns) % max_align(aligns, sizes.len()) == 0,
        max_align(aligns, sizes.len()) >= 1,
        forall|i: int| 0 <= i < sizes.len() ==> aligns[i] <= #[trigger] max_align(aligns, sizes.len()),
{
    let n = sizes.len();
    let offs = field_offsets(sizes, aligns);
    assert forall|i: int| 0 <= i < n implies #[trigger] offs[i] % aligns[i] == 0
        && offs[i] + sizes[i] <= struct_size(sizes, aligns)
        && offs[i] + sizes[i] == fields_end(sizes, aligns, (i + 1) as nat) by {
        lemma_fields_within(sizes, aligns, i as nat);
        lemma_fields_end_mono(sizes, aligns, i as nat, i as nat);
        lemma_pad(fields_end(sizes, aligns, i as nat), aligns[i] as int);
    }
    assert forall|i: int| 0 <= i < n - 1 implies #[trigger] offs[i] + sizes[i] <= offs[i + 1] by {
        lemma_fields_within(sizes, aligns, i as nat);
        lemma_fields_within(sizes, aligns, (i + 1) as nat);
        lemma_fields_end_mono(sizes, aligns, (i + 1) as nat, (i + 1) as nat);
        lemma_pad(fields_end(sizes, aligns, (i + 1) as nat), aligns[i + 1] as int);
    }
    lemma_max_align_pos(aligns, n);
    lemma_fields_end_mono(sizes, aligns, n, n);
    lemma_pad(fields_end(sizes, aligns, n), max_align(aligns, n));
    assert forall|i: int| 0 <= i < n implies aligns[i] <= #[trigger] max_align(aligns, n) by {
        lemma_max_align_ge(aligns, n, i);
    }
}

} // verus!

verus! {

/// The first position at or after `from` where `vs` holds `v`, or the
/// length of `vs` if there is none.
pub open spec fn find_view(vs: Seq<CompoundTypeView>, v: CompoundTypeView, from: int) -> int
    decreases vs.len() - from,
{
    if from < 0 || from >= vs.len() {
        vs.len() as int
    } else if vs[from] == v {
        from
    } else {
        find_view(vs, v, from + 1)
    }
}

/// The table after interning `v`: unchanged if it already holds `v`,
/// else with `v` appended.
pub open spec fn intern_view(vs: Seq<CompoundTypeView>, v: CompoundTypeView) -> Seq<
    CompoundTypeView,
> {
    if find_view(vs, v, 0) < vs.len() {
        vs
    } else {
        vs.push(v)
    }
}

/// The id that interning `v` into a table with tag `tag` gives: that of the
/// first entry equal to `v`, or of the appended one.
pub open spec fn interned_id(tag: u32, vs: Seq<CompoundTypeView>, v: CompoundTypeView) -> CompoundTypeId {
    CompoundTypeId { arena_id: tag, index: find_view(vs, v, 0) as usize }
}

proof fn lemma_find_view(vs: Seq<CompoundTypeView>, v: CompoundTypeView, from: int)
    requires
        0 <= from <= vs.len(),
    ensures
        from <= find_view(vs, v, from) <= vs.len(),
        find_view(vs, v, from) < vs.len() ==> vs[find_view(vs, v, from)] == v,
        forall|j: int| from <= j < find_view(vs, v, from) ==> vs[j] != v,
    decreases vs.len() - from,
{
    if from < vs.len() && vs[from] != v {
        lemma_find_view(vs, v, from + 1);
    }
}

/// Scanning past positions that do not hold `v` does not change the answer.
proof fn lemma_find_view_skip(vs: Seq<CompoundTypeView>, v: CompoundTypeView, i: int)
    requires
        0 <= i <= vs.len(),
        forall|j: int| 0 <= j < i ==> vs[j] != v,
    ensures
        find_view(vs, v, 0) == find_view(vs, v, i),
    decreases i,
{
    if i > 0 {
        lemma_find_view_skip(vs, v, i - 1);
    }
}

pub struct TypesBase {
    pub compound_types: Arena<CompoundType>,
}

impl TypesBase {
    /// The compound types held, by their views, in allocation order.
    pub open spec fn items(&self) -> Seq<CompoundTypeView> {
        arena_items(self.compound_types).map_values(|c: CompoundType| c@)
    }

    /// The tag that the ids of this table carry.
    pub open spec fn tag(&self) -> u32 {
        arena_tag(self.compound_types)
    }

    /// `id` names an entry of this table.
    pub open spec fn valid_id(&self, id: CompoundTypeId) -> bool {
        id.arena_id == self.tag() && id.index < self.items().len()
    }

    pub fn new() -> (s: Self)
        ensures
            s.items() == Seq::<CompoundTypeView>::empty(),
    {
        let s = TypesBase { compound_types: arena_new() };
        assert(s.items() =~= Seq::<CompoundTypeView>::empty());
        s
    }

    /// Interns `t`: returns the id of the first entry equal to it, or
    /// appends it and returns the new id.
    fn new_compound_ty(&mut self, t: CompoundType) -> (id: CompoundTypeId)
        ensures
            final(self).items() == intern_view(old(self).items(), t@),
            final(self).tag() == old(self).tag(),
            id == interned_id(old(self).tag(), old(self).items(), t@),
    {
        let n = arena_len(&self.compound_types);
        let next = arena_next_id(&self.compound_types);
        let tag = next.arena_id;
        let ghost vs = self.items();
        let mut i: usize = 0;
        while i < n
            invariant
                n == arena_items(self.compound_types).len(),
                tag == arena_tag(self.compound_types),
                vs == self.items(),
                self == old(self),
                0 <= i <= n,
                forall|j: int| 0 <= j < i ==> vs[j] != t@,
            decreases n - i,
        {
            let id = CompoundTypeId { arena_id: tag, index: i };
            let c = arena_get(&self.compound_types, id);
            assert(vs[i as int] == c@);
            if t.eq(c) {
                proof {
                    lemma_find_view_skip(vs, t@, i as int);
                }
                return id;
            }
            i = i + 1;
        }
        proof {
            lemma_find_view_skip(vs, t@, n as int);
        }
        let ghost old_items = arena_items(self.compound_types);
        let ghost tv = t@;
        let id = arena_alloc(&mut self.compound_types, t);
        assert(self.items() =~= vs.push(tv));
        id
    }

    pub fn new_pointer_ty(&mut self, elem_ty: Type) -> (r: Type)
        ensures
            final(self).items() == intern_view(old(self).items(), CompoundTypeView::Pointer(elem_ty)),
            final(self).tag() == old(self).tag(),
            r == Type::Pointer(
                interned_id(old(self).tag(), old(self).items(), CompoundTypeView::Pointer(elem_ty)),
            ),
    {
        let id = self.new_compound_ty(CompoundType::Pointer(elem_ty));
        Type::Pointer(id)
    }

    pub fn new_array_ty(&mut self, elem_ty: Type, len: usize) -> (r: Type)
        ensures
            final(self).items() == intern_view(old(self).items(), CompoundTypeView::Array(elem_ty, len)),
            final(self).tag() == old(self).tag(),
            r == Type::Array(
                interned_id(old(self).tag(), old(self).items(), CompoundTypeView::Array(elem_ty, len)),
            ),
    {
        let id = self.new_compound_ty(CompoundType::Array(ArrayType::new(elem_ty, len)));
        Type::Array(id)
    }
}

impl ArrayType {
    pub fn new(elem_ty: Type, len: usize) -> (a: Self)
        ensures
            a.elem_ty == elem_ty,
            a.len == len,
    {
        ArrayType { elem_ty, len }
    }
}

} // verus!

verus! {

/// Interning is hash-consing: the table only grows at its end, the entry at
/// the returned id is the interned type, interning the same type again
/// returns the same id and leaves the table as it is, and two types get the
/// same id exactly when they are equal.
pub proof fn lemma_interning(vs: Seq<CompoundTypeView>, v1: CompoundTypeView, v2: CompoundTypeView)
    ensures
        vs.is_prefix_of(intern_view(vs, v1)),
        intern_view(vs, v1)[find_view(vs, v1, 0)] == v1,
        find_view(intern_view(vs, v1), v1, 0) == find_view(vs, v1, 0),
        intern_view(intern_view(vs, v1), v1) == intern_view(vs, v1),
        (find_view(vs, v1, 0) == find_view(intern_view(vs, v1), v2, 0)) <==> v1 == v2,
{
    lemma_find_view(vs, v1, 0);
    let w = intern_view(vs, v1);
    let i1 = find_view(vs, v1, 0);
    lemma_find_view(w, v1, 0);
    lemma_find_view(w, v2, 0);
    if i1 == vs.len() {
        assert(w[i1] == v1);
        assert(forall|j: int| 0 <= j < i1 ==> w[j] == vs[j]);
        assert(find_view(w, v1, 0) == i1);
    }
    assert(w[i1] == v1);
    lemma_find_view(intern_view(w, v1), v1, 0);
}

pub open spec fn is_struct(t: Type) -> bool {
    t is Struct
}

/// Lowers the first `k` parameters of a function type: a struct parameter
/// is passed by a pointer to it (interned into the table) and marked
/// `byval`.  Gives the table, the parameter types and the attributes after
/// those `k` parameters.
pub open spec fn lower_params(vs: Seq<CompoundTypeView>, tag: u32, params: Seq<Type>, k: nat) -> (
    Seq<CompoundTypeView>,
    Seq<Type>,
    Map<usize, ParamAttribute>,
)
    decreases k,
{
    if k == 0 {
        (vs, params, Map::empty())
    } else {
        let prev = lower_params(vs, tag, params, (k - 1) as nat);
        let p = params[k - 1];
        if is_struct(p) {
            let ptr = CompoundTypeView::Pointer(p);
            (
                intern_view(prev.0, ptr),
                prev.1.update(k - 1, Type::Pointer(interned_id(tag, prev.0, ptr))),
                prev.2.insert((k - 1) as usize, ParamAttribute { byval: true }),
            )
        } else {
            prev
        }
    }
}

proof fn lemma_lower_params_rest(vs: Seq<CompoundTypeView>, tag: u32, params: Seq<Type>, k: nat)
    requires
        k <= params.len(),
    ensures
        lower_params(vs, tag, params, k).1.len() == params.len(),
        forall|j: int| k <= j < params.len() ==> lower_params(vs, tag, params, k).1[j] == params[j],
    decreases k,
{
    if k > 0 {
        lemma_lower_params_rest(vs, tag, params, (k - 1) as nat);
    }
}

impl FunctionType {
    pub fn new(
        ret_ty: Type,
        params_ty: Vec<Type>,
        params_attr: FxHashMap<usize, ParamAttribute>,
    ) -> (f: Self)
        ensures
            f.ret_ty == ret_ty,
            f.params_ty == params_ty,
            f.params_attr == params_attr,
    {
        FunctionType { ret_ty, params_ty, params_attr }
    }
}

impl TypesBase {
    /// Interns a function type; struct parameters become pointers to the
    /// struct, marked `byval`.
    pub fn new_function_ty(&mut self, ret_ty: Type, params_ty: Vec<Type>) -> (r: Type)
        ensures
            ({
                let l = lower_params(old(self).items(), old(self).tag(), params_ty@, params_ty@.len());
                let f = CompoundTypeView::Function(ret_ty, l.1, l.2);
                &&& final(self).items() == intern_view(l.0, f)
                &&& r == Type::Function(interned_id(old(self).tag(), l.0, f))
            }),
            final(self).tag() == old(self).tag(),
    {
        let mut params_ty = params_ty;
        let ghost params = params_ty@;
        let ghost vs0 = self.items();
        let ghost tag = self.tag();
        let mut params_attr = fx_map_new();
        let n = params_ty.len();
        let mut i: usize = 0;
        while i < n
            invariant
                n == params.len(),
                0 <= i <= n,
                self.tag() == tag,
                ({
                    let l = lower_params(vs0, tag, params, i as nat);
                    &&& self.items() == l.0
                    &&& params_ty@ == l.1
                    &&& params_attr@ == l.2
                }),
            decreases n - i,
        {
            proof {
                lemma_lower_params_rest(vs0, tag, params, i as nat);
            }
            let ty = params_ty[i];
            match ty {
                Type::Struct(_) => {
                    let ptr = self.new_pointer_ty(ty);
                    params_ty.set(i, ptr);
                    fx_map_insert(&mut params_attr, i, ParamAttribute { byval: true });
                },
                _ => {},
            }
            i = i + 1;
        }
        let id = self.new_compound_ty(
            CompoundType::Function(FunctionType::new(ret_ty, params_ty, params_attr)),
        );
        Type::Function(id)
    }
}

} // verus!

verus! {

/// What the element-type queries read of an IR value used as an index: an
/// `i32` immediate, or any other value.
#[derive(Clone, Copy, PartialEq, Eq, Debug, Structural)]
pub enum IndexValue {
    Int32(i32),
    Other,
}

/// The index value that an optional reference points to.
pub open spec fn deref_index(index: Option<&IndexValue>) -> Option<IndexValue> {
    match index {
        Some(v) => Some(*v),
        None => None,
    }
}

impl CompoundType {
    pub fn as_pointer(&self) -> (r: &Type)
        requires
            self is Pointer,
        ensures
            self@ == CompoundTypeView::Pointer(*r),
    {
        match self {
            CompoundType::Pointer(p) => p,
            _ => {
                unreached()
            },
        }
    }

    pub fn as_array(&self) -> (r: &ArrayType)
        requires
            self is Array,
        ensures
            *self == CompoundType::Array(*r),
    {
        match self {
            CompoundType::Array(a) => a,
            _ => {
                unreached()
            },
        }
    }

    pub fn as_function(&self) -> (r: &FunctionType)
        requires
            self is Function,
        ensures
            *self == CompoundType::Function(*r),
    {
        match self {
            CompoundType::Function(f) => f,
            _ => {
                unreached()
            },
        }
    }

    pub fn as_struct(&self) -> (r: &StructType)
        requires
            self is Struct,
        ensures
            *self == CompoundType::Struct(*r),
    {
        match self {
            CompoundType::Struct(s) => s,
            _ => {
                unreached()
            },
        }
    }
}

impl TypesBase {
    /// The entry that `id` names.
    pub open spec fn entry(&self, id: CompoundTypeId) -> CompoundTypeView {
        self.items()[id.index as int]
    }

    /// The element-type query does not fail on `ty` and `index`: a
    /// compound type names an entry of the matching kind, and a struct is
    /// indexed by an `i32` immediate that is a field number.
    pub open spec fn element_ty_ok(&self, ty: Type, index: Option<IndexValue>) -> bool {
        match ty {
            Type::Pointer(id) => self.valid_id(id) && self.entry(id) is Pointer,
            Type::Array(id) => self.valid_id(id) && self.entry(id) is Array,
            Type::Struct(id) => self.valid_id(id) && match (self.entry(id), index) {
                (CompoundTypeView::Struct(fields, _, _, _), Some(IndexValue::Int32(v))) => 0 <= v
                    < fields.len(),
                _ => false,
            },
            _ => true,
        }
    }

    /// The type of an element of `ty`: what a pointer points to, the
    /// element of an array, the indexed field of a struct, and `ty` itself
    /// for any other type.
    pub open spec fn element_ty(&self, ty: Type, index: Option<IndexValue>) -> Type {
        match ty {
            Type::Pointer(id) => match self.entry(id) {
                CompoundTypeView::Pointer(e) => e,
                _ => ty,
            },
            Type::Array(id) => match self.entry(id) {
                CompoundTypeView::Array(e, _) => e,
                _ => ty,
            },
            Type::Struct(id) => match (self.entry(id), index) {
                (CompoundTypeView::Struct(fields, _, _, _), Some(IndexValue::Int32(v))) => fields[v as int],
                _ => ty,
            },
            _ => ty,
        }
    }

    /// Following the indices from `ty` never fails: each step is taken from
    /// a pointer, array or struct type that the table holds, and a struct
    /// step is an `i32` field number.
    pub open spec fn path_ok(&self, ty: Type, idx: Seq<IndexValue>) -> bool
        decreases idx.len(),
    {
        if idx.len() == 0 {
            true
        } else {
            match ty {
                Type::Pointer(id) => self.valid_id(id) && match self.entry(id) {
                    CompoundTypeView::Pointer(e) => idx.len() == 1 || self.path_ok(e, idx.drop_first()),
                    _ => false,
                },
                Type::Array(id) => self.valid_id(id) && match self.entry(id) {
                    CompoundTypeView::Array(e, _) => idx.len() == 1 || self.path_ok(e, idx.drop_first()),
                    _ => false,
                },
                Type::Struct(id) => self.valid_id(id) && match (self.entry(id), idx[0]) {
                    (CompoundTypeView::Struct(fields, _, _, _), IndexValue::Int32(v)) => 0 <= v
                        < fields.len() && (idx.len() == 1 || self.path_ok(fields[v as int], idx.drop_first())),
                    _ => false,
                },
                _ => true,
            }
        }
    }

    /// The type reached from `ty` by the indices, one step per index; `None`
    /// when a step is taken from a type that has no elements.
    pub open spec fn element_path(&self, ty: Type, idx: Seq<IndexValue>) -> Option<Type>
        decreases idx.len(),
    {
        if idx.len() == 0 {
            Some(ty)
        } else {
            match ty {
                Type::Pointer(id) => match self.entry(id) {
                    CompoundTypeView::Pointer(e) => if idx.len() == 1 {
                        Some(e)
                    } else {
                        self.element_path(e, idx.drop_first())
                    },
                    _ => None,
                },
                Type::Array(id) => match self.entry(id) {
                    CompoundTypeView::Array(e, _) => if idx.len() == 1 {
                        Some(e)
                    } else {
                        self.element_path(e, idx.drop_first())
                    },
                    _ => None,
                },
                Type::Struct(id) => match (self.entry(id), idx[0]) {
                    (CompoundTypeView::Struct(fields, _, _, _), IndexValue::Int32(v)) => if idx.len()
                        == 1 {
                        Some(fields[v as int])
                    } else {
                        self.element_path(fields[v as int], idx.drop_first())
                    },
                    _ => None,
                },
                _ => None,
            }
        }
    }

    fn entry_ref(&self, id: CompoundTypeId) -> (c: &CompoundType)
        requires
            self.valid_id(id),
        ensures
            c@ == self.entry(id),
    {
        arena_get(&self.compound_types, id)
    }

    pub fn as_function_ty(&self, ty: Type) -> (r: Option<&FunctionType>)
        requires
            ty matches Type::Function(id) ==> self.valid_id(id) && self.entry(id) is Function,
        ensures
            match ty {
                Type::Function(id) => r matches Some(f) && CompoundType::Function(*f)@ == self.entry(id),
                _ => r is None,
            },
    {
        match ty {
            Type::Function(id) => Some(self.entry_ref(id).as_function()),
            _ => None,
        }
    }

    pub fn as_struct_ty(&self, ty: Type) -> (r: Option<&StructType>)
        requires
            ty matches Type::Struct(id) ==> self.valid_id(id) && self.entry(id) is Struct,
        ensures
            match ty {
                Type::Struct(id) => r matches Some(s) && CompoundType::Struct(*s)@ == self.entry(id),
                _ => r is None,
            },
    {
        match ty {
            Type::Struct(id) => Some(self.entry_ref(id).as_struct()),
            _ => None,
        }
    }

    pub fn get_element_ty(&self, ty: Type, index: Option<&IndexValue>) -> (r: Option<Type>)
        requires
            self.element_ty_ok(ty, deref_index(index)),
        ensures
            r == Some(self.element_ty(ty, deref_index(index))),
    {
        match ty {
            Type::Pointer(id) => Some(*self.entry_ref(id).as_pointer()),
            Type::Array(id) => Some(self.entry_ref(id).as_array().elem_ty),
            Type::Struct(id) => {
                let s = self.entry_ref(id).as_struct();
                match index {
                    Some(IndexValue::Int32(v)) => Some(s.fields_ty[*v as usize]),
                    _ => {
                        proof {
                            assert(false);
                        }
                        None
                    },
                }
            },
            Type::Void | Type::i1 | Type::i8 | Type::i32 | Type::i64 | Type::F64 | Type::Function(
                _,
            ) => Some(ty),
        }
    }

    pub fn get_element_ty_with_indices(&self, ty: Type, indices: &[IndexValue]) -> (r: Option<Type>)
        requires
            self.path_ok(ty, indices@),
        ensures
            r == self.element_path(ty, indices@),
    {
        if indices.len() == 0 {
            return Some(ty);
        }
        let n = indices.len();
        let mut cur = ty;
        let mut i: usize = 0;
        assert(indices@.skip(0) =~= indices@);
        loop
            invariant
                n == indices@.len(),
                0 <= i < n,
                self.path_ok(cur, indices@.skip(i as int)),
                self.element_path(cur, indices@.skip(i as int)) == self.element_path(ty, indices@),
            decreases n - i,
        {
            let ghost rest = indices@.skip(i as int);
            assert(rest[0] == indices@[i as int]);
            assert(rest.drop_first() =~= indices@.skip(i + 1));
            let next = match cur {
                Type::Void | Type::i1 | Type::i8 | Type::i32 | Type::i64 | Type::F64 | Type::Function(
                    _,
                ) => {
                    return None;
                },
                Type::Pointer(id) => *self.entry_ref(id).as_pointer(),
                Type::Array(id) => self.entry_ref(id).as_array().elem_ty,
                Type::Struct(id) => {
                    let s = self.entry_ref(id).as_struct();
                    match indices[i] {
                        IndexValue::Int32(v) => s.fields_ty[v as usize],
                        IndexValue::Other => {
                            proof {
                                assert(false);
                            }
                            return None;
                        },
                    }
                },
            };
            if n - i == 1 {
                return Some(next);
            }
            cur = next;
            i = i + 1;
        }
    }
}

} // verus!

verus! {

/// The first position at or after `from` where `s` holds `x`, or the length
/// of `s` if there is none.
pub open spec fn first_index_of<T>(s: Seq<T>, x: T, from: int) -> int
    decreases s.len() - from,
{
    if from < 0 || from >= s.len() {
        s.len() as int
    } else if s[from] == x {
        from
    } else {
        first_index_of(s, x, from + 1)
    }
}

proof fn lemma_first_index_of_skip<T>(s: Seq<T>, x: T, i: int)
    requires
        0 <= i <= s.len(),
        forall|j: int| 0 <= j < i ==> s[j] != x,
    ensures
        first_index_of(s, x, 0) == first_index_of(s, x, i),
    decreases i,
{
    if i > 0 {
        lemma_first_index_of_skip(s, x, i - 1);
    }
}

impl StructType {
    /// The type of the first field recorded at byte offset `i`, if any.
    pub fn get_type_at(&self, i: usize) -> (r: Option<&Type>)
        requires
            first_index_of(self.spec_offsets(), i, 0) < self.spec_offsets().len()
                ==> first_index_of(self.spec_offsets(), i, 0) < self.spec_fields().len(),
        ensures
            ({
                let p = first_index_of(self.spec_offsets(), i, 0);
                if p < self.spec_offsets().len() {
                    r == Some(&self.spec_fields()[p])
                } else {
                    r is None
                }
            }),
    {
        let n = self.fields_offset.len();
        let mut k: usize = 0;
        while k < n
            invariant
                n == self.fields_offset@.len(),
                0 <= k <= n,
                forall|j: int| 0 <= j < k ==> self.fields_offset@[j] != i,
                first_index_of(self.fields_offset@, i, 0) < n ==> first_index_of(
                    self.fields_offset@,
                    i,
                    0,
                ) < self.fields_ty@.len(),
            decreases n - k,
        {
            if self.fields_offset[k] == i {
                proof {
                    lemma_first_index_of_skip(self.fields_offset@, i, k as int);
                    assert(first_index_of(self.fields_offset@, i, k as int) == k as int);
                }
                return Some(&self.fields_ty[k]);
            }
            k = k + 1;
        }
        proof {
            lemma_first_index_of_skip(self.fields_offset@, i, n as int);
        }
        None
    }
}

impl Type {
    pub fn is_atomic(&self) -> (r: bool)
        ensures
            r == (*self is Void || *self is i1 || *self is i8 || *self is i32 || *self is i64
                || *self is F64),
    {
        match self {
            Type::Void | Type::i1 | Type::i8 | Type::i32 | Type::i64 | Type::F64 => true,
            _ => false,
        }
    }

    pub fn is_integer(&self) -> (r: bool)
        ensures
            r == (*self is i1 || *self is i8 || *self is i32 || *self is i64),
    {
        match self {
            Type::i1 | Type::i8 | Type::i32 | Type::i64 => true,
            _ => false,
        }
    }

    pub fn is_float(&self) -> (r: bool)
        ensures
            r == (*self is F64),
    {
        match self {
            Type::F64 => true,
            _ => false,
        }
    }
}

/// The table of compound types of a module.
pub struct Types {
    pub base: TypesBase,
}

impl Types {
    pub fn new() -> (s: Self)
        ensures
            s.base.items() == Seq::<CompoundTypeView>::empty(),
    {
        Types { base: TypesBase::new() }
    }

    pub fn new_pointer_ty(&mut self, elem_ty: Type) -> (r: Type)
        ensures
            final(self).base.items() == intern_view(old(self).base.items(), CompoundTypeView::Pointer(elem_ty)),
            final(self).base.tag() == old(self).base.tag(),
            r == Type::Pointer(
                interned_id(old(self).base.tag(), old(self).base.items(), CompoundTypeView::Pointer(elem_ty)),
            ),
    {
        self.base.new_pointer_ty(elem_ty)
    }

    pub fn new_array_ty(&mut self, elem_ty: Type, len: usize) -> (r: Type)
        ensures
            final(self).base.items() == intern_view(old(self).base.items(), CompoundTypeView::Array(elem_ty, len)),
            final(self).base.tag() == old(self).base.tag(),
            r == Type::Array(
                interned_id(old(self).base.tag(), old(self).base.items(), CompoundTypeView::Array(elem_ty, len)),
            ),
    {
        self.base.new_array_ty(elem_ty, len)
    }

    pub fn new_function_ty(&mut self, ret_ty: Type, params_ty: Vec<Type>) -> (r: Type)
        ensures
            ({
                let l = lower_params(old(self).base.items(), old(self).base.tag(), params_ty@, params_ty@.len());
                let f = CompoundTypeView::Function(ret_ty, l.1, l.2);
                &&& final(self).base.items() == intern_view(l.0, f)
                &&& r == Type::Function(interned_id(old(self).base.tag(), l.0, f))
            }),
            final(self).base.tag() == old(self).base.tag(),
    {
        self.base.new_function_ty(ret_ty, params_ty)
    }

    /// Interns a struct type whose field `i` has size `sizes[i]` and
    /// alignment `aligns[i]`.
    pub fn new_struct_ty(&mut self, fields_ty: Vec<Type>, sizes: &[usize], aligns: &[usize]) -> (r: Type)
        requires
            layout_ok(sizes@, aligns@),
            sizes@.len() == fields_ty@.len(),
        ensures
            ({
                let v = CompoundTypeView::Struct(
                    fields_ty@,
                    field_offsets(sizes@, aligns@),
                    max_align(aligns@, sizes@.len()) as usize,
                    struct_size(sizes@, aligns@) as usize,
                );
                &&& final(self).base.items() == intern_view(old(self).base.items(), v)
                &&& r == Type::Struct(interned_id(old(self).base.tag(), old(self).base.items(), v))
            }),
            final(self).base.tag() == old(self).base.tag(),
    {
        let s = StructType::new(fields_ty, sizes, aligns);
        let id = self.base.new_compound_ty(CompoundType::Struct(s));
        Type::Struct(id)
    }

    pub fn compound_ty(&self, id: CompoundTypeId) -> (c: &CompoundType)
        requires
            self.base.valid_id(id),
        ensures
            c@ == self.base.entry(id),
    {
        self.base.entry_ref(id)
    }

    pub fn get_element_ty(&self, ty: Type, index: Option<&IndexValue>) -> (r: Option<Type>)
        requires
            self.base.element_ty_ok(ty, deref_index(index)),
        ensures
            r == Some(self.base.element_ty(ty, deref_index(index))),
    {
        self.base.get_element_ty(ty, index)
    }

    pub fn get_element_ty_with_indices(&self, ty: Type, indices: &[IndexValue]) -> (r: Option<Type>)
        requires
            self.base.path_ok(ty, indices@),
        ensures
            r == self.base.element_path(ty, indices@),
    {
        self.base.get_element_ty_with_indices(ty, indices)
    }
}

} // verus!

verus! {

/// The name of a type that is not compound.
pub open spec fn prim_name(t: Type) -> Seq<char> {
    match t {
        Type::Void => "void"@,
        Type::i1 => "i1"@,
        Type::i8 => "i8"@,
        Type::i32 => "i32"@,
        Type::i64 => "i64"@,
        Type::F64 => "f64"@,
        _ => seq![],
    }
}

/// The text after a parameter with attributes `attrs[i]`.
pub open spec fn byval_text(attrs: Map<usize, ParamAttribute>, i: int) -> Seq<char> {
    if attrs.contains_key(i as usize) && attrs[i as usize].byval {
        " byval"@
    } else {
        seq![]
    }
}

impl TypesBase {
    /// Printing `ty` takes at most `fuel` nested steps through compound
    /// types, each of which names an entry of the matching kind.
    pub open spec fn printable(&self, ty: Type, fuel: nat) -> bool
        decreases fuel,
    {
        match ty {
            Type::Pointer(id) => fuel > 0 && self.valid_id(id) && match self.entry(id) {
                CompoundTypeView::Pointer(e) => self.printable(e, (fuel - 1) as nat),
                _ => false,
            },
            Type::Array(id) => fuel > 0 && self.valid_id(id) && match self.entry(id) {
                CompoundTypeView::Array(e, _) => self.printable(e, (fuel - 1) as nat),
                _ => false,
            },
            Type::Function(id) => fuel > 0 && self.valid_id(id) && match self.entry(id) {
                CompoundTypeView::Function(ret, ps, _) => self.printable(ret, (fuel - 1) as nat)
                    && forall|i: int| 0 <= i < ps.len() ==> self.printable(#[trigger] ps[i], (fuel - 1) as nat),
                _ => false,
            },
            Type::Struct(id) => fuel > 0 && self.valid_id(id) && match self.entry(id) {
                CompoundTypeView::Struct(fs, _, _, _) => forall|i: int|
                    0 <= i < fs.len() ==> self.printable(#[trigger] fs[i], (fuel - 1) as nat),
                _ => false,
            },
            _ => true,
        }
    }

    /// Every type of `ts` is printable with `fuel`.
    pub open spec fn all_printable(&self, ts: Seq<Type>, fuel: nat) -> bool {
        forall|i: int| 0 <= i < ts.len() ==> self.printable(#[trigger] ts[i], fuel)
    }

    /// The text of `ty`: a pointer is its element's text and `*`; an array
    /// `[len x elem]`; a function `ret (params)`; a struct
    /// `struct {fields}`.
    pub open spec fn type_text(&self, ty: Type, fuel: nat) -> Seq<char>
        decreases fuel, 0nat,
    {
        match ty {
            Type::Pointer(id) => if fuel == 0 {
                seq![]
            } else {
                match self.entry(id) {
                    CompoundTypeView::Pointer(e) => self.type_text(e, (fuel - 1) as nat) + "*"@,
                    _ => seq![],
                }
            },
            Type::Array(id) => if fuel == 0 {
                seq![]
            } else {
                match self.entry(id) {
                    CompoundTypeView::Array(e, len) => array_text(len, self.type_text(e, (fuel - 1) as nat)),
                    _ => seq![],
                }
            },
            Type::Function(id) => if fuel == 0 {
                seq![]
            } else {
                match self.entry(id) {
                    CompoundTypeView::Function(ret, ps, attrs) => self.type_text(ret, (fuel - 1) as nat)
                        + " ("@ + trim_seps(self.items_text(ps, attrs, (fuel - 1) as nat, ps.len())) + ")"@,
                    _ => seq![],
                }
            },
            Type::Struct(id) => if fuel == 0 {
                seq![]
            } else {
                match self.entry(id) {
                    CompoundTypeView::Struct(fs, _, _, _) => "struct {"@ + trim_seps(
                        self.items_text(fs, Map::empty(), (fuel - 1) as nat, fs.len()),
                    ) + "}"@,
                    _ => seq![],
                }
            },
            _ => prim_name(ty),
        }
    }

    /// The texts of the first `k` types of `ts`, each followed by its
    /// ` byval` mark, if any, and `, `.
    pub open spec fn items_text(&self, ts: Seq<Type>, attrs: Map<usize, ParamAttribute>, fuel: nat, k: nat) -> Seq<char>
        decreases fuel, k + 1,
    {
        if k == 0 {
            seq![]
        } else {
            self.items_text(ts, attrs, fuel, (k - 1) as nat) + self.type_text(ts[k - 1], fuel) + byval_text(
                attrs,
                k - 1,
            ) + ", "@
        }
    }
}

/// The text of an array type.
pub open spec fn array_text(len: usize, elem: Seq<char>) -> Seq<char> {
    "["@ + decimal(len as nat) + " x "@ + elem + "]"@
}

/// The text of a type on its own: the name of a basic type, or the kind
/// and number of a compound one.
pub open spec fn type_id_text(t: Type) -> Seq<char> {
    match t {
        Type::Pointer(id) => "(ty:"@ + decimal(id.index as nat) + ")*"@,
        Type::Array(id) => "arrty:"@ + decimal(id.index as nat),
        Type::Function(id) => "functy:"@ + decimal(id.index as nat),
        Type::Struct(id) => "structty:"@ + decimal(id.index as nat),
        _ => prim_name(t),
    }
}

fn prim_str(t: Type) -> (s: String)
    ensures
        s@ == prim_name(t),
{
    match t {
        Type::Void => String::from_str("void"),
        Type::i1 => String::from_str("i1"),
        Type::i8 => String::from_str("i8"),
        Type::i32 => String::from_str("i32"),
        Type::i64 => String::from_str("i64"),
        Type::F64 => String::from_str("f64"),
        _ => String::new(),
    }
}

impl Type {
    pub fn to_string(&self) -> (s: String)
        ensures
            s@ == type_id_text(*self),
    {
        match self {
            Type::Pointer(id) => {
                let mut s = String::from_str("(ty:");
                push_decimal(&mut s, id.index);
                s.append(")*");
                s
            },
            Type::Array(id) => {
                let mut s = String::from_str("arrty:");
                push_decimal(&mut s, id.index);
                s
            },
            Type::Function(id) => {
                let mut s = String::from_str("functy:");
                push_decimal(&mut s, id.index);
                s
            },
            Type::Struct(id) => {
                let mut s = String::from_str("structty:");
                push_decimal(&mut s, id.index);
                s
            },
            _ => prim_str(*self),
        }
    }
}

} // verus!

verus! {

/// The attributes of a parameter list, by their contents; none for struct
/// fields.
pub open spec fn attrs_view(attrs: Option<&FxHashMap<usize, ParamAttribute>>) -> Map<usize, ParamAttribute> {
    match attrs {
        Some(m) => m@,
        None => Map::empty(),
    }
}

proof fn lemma_struct_printable(tys: &TypesBase, id: CompoundTypeId, g: nat, fs: Seq<Type>, offs: Seq<usize>, align: usize, size: usize)
    requires
        tys.printable(Type::Struct(id), g),
        tys.entry(id) == CompoundTypeView::Struct(fs, offs, align, size),
    ensures
        g > 0,
        tys.all_printable(fs, (g - 1) as nat),
{
    let e = tys.entry(id);
    assert(e is Struct);
    let fs2 = e->Struct_0;
    assert(fs2 == fs);
    assert(forall|i: int| 0 <= i < fs2.len() ==> tys.printable(#[trigger] fs2[i], (g - 1) as nat));
}

impl TypesBase {
    fn str_of(&self, ty: Type, Ghost(fuel): Ghost<nat>) -> (r: String)
        requires
            self.printable(ty, fuel),
        ensures
            forall|f: nat| self.printable(ty, f) ==> r@ == self.type_text(ty, f),
        decreases fuel, 0nat,
    {
        match ty {
            Type::Pointer(id) => {
                let e = *self.entry_ref(id).as_pointer();
                let mut s = self.str_of(e, Ghost((fuel - 1) as nat));
                s.append("*");
                proof {
                    assert forall|g: nat| self.printable(ty, g) implies s@ == self.type_text(ty, g) by {
                        assert(self.printable(e, (g - 1) as nat));
                    }
                }
                s
            },
            Type::Array(id) => {
                let a = self.entry_ref(id).as_array();
                let es = self.str_of(a.elem_ty, Ghost((fuel - 1) as nat));
                let mut s = String::from_str("[");
                push_decimal(&mut s, a.len);
                s.append(" x ");
                s.append(es.as_str());
                s.append("]");
                proof {
                    assert forall|g: nat| self.printable(ty, g) implies s@ == self.type_text(ty, g) by {
                        assert(self.printable(a.elem_ty, (g - 1) as nat));
                    }
                }
                s
            },
            Type::Function(id) => {
                let f = self.entry_ref(id).as_function();
                assert(self.entry(id) == CompoundTypeView::Function(f.ret_ty, f.params_ty@, f.params_attr@));
                assert(self.all_printable(f.params_ty@, (fuel - 1) as nat)) by {
                    let ps = f.params_ty@;
                    assert(match self.entry(id) {
                        CompoundTypeView::Function(ret, ps2, _) => forall|i: int| 0 <= i < ps2.len() ==> self.printable(#[trigger] ps2[i], (fuel - 1) as nat),
                        _ => false,
                    });
                    assert forall|i: int| 0 <= i < ps.len() implies self.printable(#[trigger] ps[i], (fuel - 1) as nat) by {
                        assert(self.printable(ps[i], (fuel - 1) as nat));
                    }
                }
                let mut s = self.str_of(f.ret_ty, Ghost((fuel - 1) as nat));
                s.append(" (");
                let items = self.items_str(&f.params_ty, Some(&f.params_attr), Ghost((fuel - 1) as nat));
                let t = trim_seps_str(items.as_str());
                s.append(t.as_str());
                s.append(")");
                proof {
                    assert forall|g: nat| self.printable(ty, g) implies s@ == self.type_text(ty, g) by {
                        assert(self.printable(f.ret_ty, (g - 1) as nat));
                        let ps = f.params_ty@;
                        assert(match self.entry(id) {
                            CompoundTypeView::Function(ret, ps2, _) => forall|i: int| 0 <= i < ps2.len() ==> self.printable(#[trigger] ps2[i], (g - 1) as nat),
                            _ => false,
                        });
                        assert forall|i: int| 0 <= i < ps.len() implies self.printable(#[trigger] ps[i], (g - 1) as nat) by {
                            assert(self.printable(ps[i], (g - 1) as nat));
                        }
                        assert(self.all_printable(ps, (g - 1) as nat));
                        assert(attrs_view(Some(&f.params_attr)) == f.params_attr@);
                        assert(items@ == self.items_text(ps, f.params_attr@, (g - 1) as nat, ps.len()));
                        assert(t@ == trim_seps(items@));
                    }
                }
                s
            },
            Type::Struct(id) => {
                let st = self.entry_ref(id).as_struct();
                assert(self.entry(id) == CompoundTypeView::Struct(st.fields_ty@, st.fields_offset@, st.align, st.size));
                assert(self.all_printable(st.fields_ty@, (fuel - 1) as nat)) by {
                    let fs = st.fields_ty@;
                    assert(match self.entry(id) {
                        CompoundTypeView::Struct(fs2, _, _, _) => forall|i: int| 0 <= i < fs2.len() ==> self.printable(#[trigger] fs2[i], (fuel - 1) as nat),
                        _ => false,
                    });
                    assert forall|i: int| 0 <= i < fs.len() implies self.printable(#[trigger] fs[i], (fuel - 1) as nat) by {
                        assert(self.printable(fs[i], (fuel - 1) as nat));
                    }
                }
                let mut s = String::from_str("struct {");
                let items = self.items_str(&st.fields_ty, None, Ghost((fuel - 1) as nat));
                let t = trim_seps_str(items.as_str());
                s.append(t.as_str());
                s.append("}");
                proof {
                    assert forall|g: nat| self.printable(ty, g) implies s@ == self.type_text(ty, g) by {
                        let fs = st.fields_ty@;
                        assert(self.entry(id) == CompoundTypeView::Struct(fs, st.fields_offset@, st.align, st.size));
                        lemma_struct_printable(self, id, g, fs, st.fields_offset@, st.align, st.size);
                        assert(items@ == self.items_text(fs, Map::empty(), (g - 1) as nat, fs.len()));
                    }
                }
                s
            },
            _ => prim_str(ty),
        }
    }

    fn items_str(&self, ts: &Vec<Type>, attrs: Option<&FxHashMap<usize, ParamAttribute>>, Ghost(fuel): Ghost<nat>) -> (r: String)
        requires
            self.all_printable(ts@, fuel),
        ensures
            forall|f: nat| self.all_printable(ts@, f) ==> r@ == self.items_text(ts@, attrs_view(attrs), f, ts@.len()),
        decreases fuel, 1nat,
    {
        let mut s = String::new();
        let n = ts.len();
        let mut i: usize = 0;
        while i < n
            invariant
                n == ts@.len(),
                0 <= i <= n,
                self.all_printable(ts@, fuel),
                forall|f: nat| self.all_printable(ts@, f) ==> s@ == self.items_text(ts@, attrs_view(attrs), f, i as nat),
            decreases n - i,
        {
            assert(self.printable(ts@[i as int], fuel));
            let t = self.str_of(ts[i], Ghost(fuel));
            let ghost before = s@;
            s.append(t.as_str());
            let ghost mid = s@;
            match attrs {
                Some(m) => match fx_map_get(m, i) {
                    Some(a) => {
                        if a.byval {
                            s.append(" byval");
                        }
                    },
                    None => {},
                },
                None => {},
            }
            proof {
                assert(s@ == mid + byval_text(attrs_view(attrs), i as int));
            }
            s.append(", ");
            proof {
                assert forall|f: nat| self.all_printable(ts@, f) implies s@ == self.items_text(ts@, attrs_view(attrs), f, (i + 1) as nat) by {
                    assert(self.printable(ts@[i as int], f));
                }
            }
            i = i + 1;
        }
        s
    }

    pub fn to_string(&self, ty: Type) -> (r: String)
        requires
            exists|f: nat| self.printable(ty, f),
        ensures
            forall|f: nat| self.printable(ty, f) ==> r@ == self.type_text(ty, f),
    {
        let ghost fuel = choose|f: nat| self.printable(ty, f);
        self.str_of(ty, Ghost(fuel))
    }
}

impl ArrayType {
    pub fn to_string(&self, tys: &TypesBase) -> (r: String)
        requires
            exists|f: nat| tys.printable(self.elem_ty, f),
        ensures
            forall|f: nat| tys.printable(self.elem_ty, f) ==> r@ == array_text(self.len, tys.type_text(self.elem_ty, f)),
    {
        let es = tys.to_string(self.elem_ty);
        let mut s = String::from_str("[");
        push_decimal(&mut s, self.len);
        s.append(" x ");
        s.append(es.as_str());
        s.append("]");
        s
    }
}

impl FunctionType {
    pub fn to_string(&self, tys: &TypesBase) -> (r: String)
        requires
            exists|f: nat| tys.printable(self.ret_ty, f) && tys.all_printable(self.params_ty@, f),
        ensures
            forall|f: nat|
                tys.printable(self.ret_ty, f) && tys.all_printable(self.params_ty@, f) ==> r@ == tys.type_text(self.ret_ty, f)
                    + " ("@ + trim_seps(tys.items_text(self.params_ty@, self.params_attr@, f, self.params_ty@.len())) + ")"@,
    {
        let ghost fuel = choose|f: nat| tys.printable(self.ret_ty, f) && tys.all_printable(self.params_ty@, f);
        let mut s = tys.str_of(self.ret_ty, Ghost(fuel));
        s.append(" (");
        let items = tys.items_str(&self.params_ty, Some(&self.params_attr), Ghost(fuel));
        let t = trim_seps_str(items.as_str());
        s.append(t.as_str());
        s.append(")");
        s
    }
}

impl StructType {
    pub fn to_string(&self, tys: &TypesBase) -> (r: String)
        requires
            exists|f: nat| tys.all_printable(self.spec_fields(), f),
        ensures
            forall|f: nat|
                tys.all_printable(self.spec_fields(), f) ==> r@ == "struct {"@ + trim_seps(
                    tys.items_text(self.spec_fields(), Map::empty(), f, self.spec_fields().len()),
                ) + "}"@,
    {
        let ghost fuel = choose|f: nat| tys.all_printable(self.spec_fields(), f);
        let mut s = String::from_str("struct {");
        let items = tys.items_str(&self.fields_ty, None, Ghost(fuel));
        let t = trim_seps_str(items.as_str());
        s.append(t.as_str());
        s.append("}");
        s
    }
}

impl Types {
    pub fn to_string(&self, ty: Type) -> (r: String)
        requires
            exists|f: nat| self.base.printable(ty, f),
        ensures
            forall|f: nat| self.base.printable(ty, f) ==> r@ == self.base.type_text(ty, f),
    {
        self.base.to_string(ty)
    }
}

} // verus!

verus! {

/// Lowering the parameters of a function type: afterwards no parameter is
/// a struct; a parameter is marked `byval` exactly when it was a struct, and
/// then it has become a pointer to that struct in the table; every other
/// parameter is kept; and the table only grows at its end.
pub proof fn lemma_lower_params(vs: Seq<CompoundTypeView>, tag: u32, params: Seq<Type>, k: nat)
    requires
        k <= params.len(),
        vs.len() + params.len() <= usize::MAX,
    ensures
        ({
            let l = lower_params(vs, tag, params, k);
            &&& l.1.len() == params.len()
            &&& l.0.len() <= vs.len() + k
            &&& vs.is_prefix_of(l.0)
            &&& forall|i: int| 0 <= i < k ==> !is_struct(#[trigger] l.1[i])
            &&& forall|i: int| 0 <= i < k ==> (l.2.contains_key(i as usize) <==> is_struct(#[trigger] params[i]))
            &&& forall|i: int| 0 <= i < k && l.2.contains_key(i as usize) ==> #[trigger] l.2[i as usize] == ParamAttribute { byval: true }
            &&& forall|i: int|
                0 <= i < k && is_struct(#[trigger] params[i]) ==> (l.1[i] matches Type::Pointer(id) && id.arena_id == tag
                    && id.index < l.0.len() && l.0[id.index as int] == CompoundTypeView::Pointer(params[i]))
            &&& forall|i: int| 0 <= i < params.len() && !(0 <= i < k && is_struct(params[i])) ==> #[trigger] l.1[i] == params[i]
            &&& forall|j: usize| (j as int) >= k ==> !(#[trigger] l.2.contains_key(j))
        }),
    decreases k,
{
    if k > 0 {
        lemma_lower_params(vs, tag, params, (k - 1) as nat);
        let prev = lower_params(vs, tag, params, (k - 1) as nat);
        let p = params[k - 1];
        if is_struct(p) {
            let ptr = CompoundTypeView::Pointer(p);
            lemma_interning(prev.0, ptr, ptr);
            lemma_find_view(prev.0, ptr, 0);
            let l = lower_params(vs, tag, params, k);
            assert(l.0 == intern_view(prev.0, ptr));
            assert forall|i: int| 0 <= i < k && is_struct(#[trigger] params[i]) implies (l.1[i] matches Type::Pointer(id) && id.arena_id == tag
                && id.index < l.0.len() && l.0[id.index as int] == CompoundTypeView::Pointer(params[i])) by {
                if i < k - 1 {
                    assert(l.1[i] == prev.1[i]);
                    let id = prev.1[i]->Pointer_0;
                    assert(prev.0.is_prefix_of(l.0));
                    assert(l.0[id.index as int] == prev.0[id.index as int]);
                } else {
                    assert(i == k - 1);
                    let f = find_view(prev.0, ptr, 0);
                    assert(0 <= f <= prev.0.len());
                    assert(l.1[i] == Type::Pointer(CompoundTypeId { arena_id: tag, index: f as usize }));
                    assert((f as usize) as int == f);
                }
            }
            assert(vs.is_prefix_of(l.0)) by {
                assert(prev.0.is_prefix_of(l.0));
                assert forall|j: int| 0 <= j < vs.len() implies vs[j] == l.0[j] by {
                    assert(vs[j] == prev.0[j]);
                }
            }
        }
    }
}

/// Following one index is taking the element type: for a pointer, an
/// array or a struct indexed by a field number, the one-step path gives
/// what `get_element_ty` gives.
pub proof fn lemma_element_path_single(tys: &TypesBase, ty: Type, index: IndexValue)
    requires
        ty is Pointer || ty is Array || ty is Struct,
        tys.element_ty_ok(ty, Some(index)),
    ensures
        tys.path_ok(ty, seq![index]),
        tys.element_path(ty, seq![index]) == Some(tys.element_ty(ty, Some(index))),
{
}

} // verus!

verus! {

/// The size and alignment of a type, for implementors that know them.
pub trait TypeSize {
    fn size_in_byte(&self, tys: &Types) -> usize;

    fn size_in_bits(&self, tys: &Types) -> usize;

    fn align_in_byte(&self, tys: &Types) -> usize;
}

} // verus!

verus! {

/// A type found in a table is found at the same place in any table that
/// extends it.
proof fn lemma_find_prefix(p: Seq<CompoundTypeView>, q: Seq<CompoundTypeView>, v: CompoundTypeView)
    requires
        p.is_prefix_of(q),
        find_view(p, v, 0) < p.len(),
    ensures
        find_view(q, v, 0) == find_view(p, v, 0),
{
    let i = find_view(p, v, 0);
    lemma_find_view(p, v, 0);
    assert forall|j: int| 0 <= j < i implies q[j] != v by {
        assert(q[j] == p[j]);
    }
    lemma_find_view_skip(q, v, i);
    assert(q[i] == v);
}

proof fn lemma_lower_prefix(vs: Seq<CompoundTypeView>, tag: u32, ps: Seq<Type>, k: nat, n: nat)
    requires
        k <= n,
    ensures
        lower_params(vs, tag, ps, k).0.is_prefix_of(lower_params(vs, tag, ps, n).0),
    decreases n,
{
    if k < n {
        lemma_lower_prefix(vs, tag, ps, k, (n - 1) as nat);
        let prev = lower_params(vs, tag, ps, (n - 1) as nat);
        if is_struct(ps[n - 1]) {
            lemma_interning(prev.0, CompoundTypeView::Pointer(ps[n - 1]), CompoundTypeView::Pointer(ps[n - 1]));
        }
    }
}

/// Lowering the parameters again, into a table that extends the one the
/// first lowering gave, adds nothing and gives the same parameters.
proof fn lemma_lower_again(vs: Seq<CompoundTypeView>, w: Seq<CompoundTypeView>, tag: u32, ps: Seq<Type>, k: nat)
    requires
        lower_params(vs, tag, ps, k).0.is_prefix_of(w),
    ensures
        lower_params(w, tag, ps, k) == (w, lower_params(vs, tag, ps, k).1, lower_params(vs, tag, ps, k).2),
    decreases k,
{
    if k > 0 {
        lemma_lower_prefix(vs, tag, ps, (k - 1) as nat, k);
        let prev = lower_params(vs, tag, ps, (k - 1) as nat);
        assert(prev.0.is_prefix_of(w)) by {
            let cur = lower_params(vs, tag, ps, k).0;
            assert forall|j: int| 0 <= j < prev.0.len() implies prev.0[j] == w[j] by {
                assert(prev.0[j] == cur[j]);
            }
        }
        lemma_lower_again(vs, w, tag, ps, (k - 1) as nat);
        let p = ps[k - 1];
        if is_struct(p) {
            let ptr = CompoundTypeView::Pointer(p);
            lemma_interning(prev.0, ptr, ptr);
            let cur = intern_view(prev.0, ptr);
            lemma_find_view(prev.0, ptr, 0);
            lemma_find_view(cur, ptr, 0);
            lemma_find_prefix(cur, w, ptr);
        }
    }
}

/// Making the same function type twice: the second call gives the same
/// type and leaves the table as the first call left it.
pub proof fn lemma_function_ty_twice(vs: Seq<CompoundTypeView>, tag: u32, ret_ty: Type, ps: Seq<Type>)
    ensures
        ({
            let l = lower_params(vs, tag, ps, ps.len());
            let f = CompoundTypeView::Function(ret_ty, l.1, l.2);
            let w = intern_view(l.0, f);
            let l2 = lower_params(w, tag, ps, ps.len());
            let f2 = CompoundTypeView::Function(ret_ty, l2.1, l2.2);
            &&& intern_view(l2.0, f2) == w
            &&& interned_id(tag, l2.0, f2) == interned_id(tag, l.0, f)
        }),
{
    let l = lower_params(vs, tag, ps, ps.len());
    let f = CompoundTypeView::Function(ret_ty, l.1, l.2);
    let w = intern_view(l.0, f);
    lemma_interning(l.0, f, f);
    lemma_lower_again(vs, w, tag, ps, ps.len());
    lemma_find_view(l.0, f, 0);
    lemma_find_view(w, f, 0);
    lemma_find_prefix(w, w, f);
}

} // verus!

verus! {

/// The kind of a type: which of the basic types it is, or which kind of
/// compound type.
pub open spec fn type_kind(t: Type) -> nat {
    match t {
        Type::Void => 0,
        Type::i1 => 1,
        Type::i8 => 2,
        Type::i32 => 3,
        Type::i64 => 4,
        Type::F64 => 5,
        Type::Pointer(_) => 6,
        Type::Array(_) => 7,
        Type::Function(_) => 8,
        Type::Struct(_) => 9,
    }
}

/// The text of a type on its own tells its kind: a pointer's starts with
/// `(ty:` and ends with `)*`, an array's starts with `arrty:`, a function
/// type's with `functy:` and a struct's with `structty:`, each followed by
/// the type's number; and types of different kinds never print alike.
pub proof fn lemma_type_text_kinds(t1: Type, t2: Type)
    ensures
        t1 matches Type::Pointer(id) ==> type_id_text(t1) == "(ty:"@ + decimal(id.index as nat) + ")*"@,
        t1 matches Type::Array(id) ==> type_id_text(t1) == "arrty:"@ + decimal(id.index as nat),
        t1 matches Type::Function(id) ==> type_id_text(t1) == "functy:"@ + decimal(id.index as nat),
        t1 matches Type::Struct(id) ==> type_id_text(t1) == "structty:"@ + decimal(id.index as nat),
        t1 is Void ==> type_id_text(t1) == "void"@,
        t1 is i1 ==> type_id_text(t1) == "i1"@,
        t1 is i8 ==> type_id_text(t1) == "i8"@,
        t1 is i32 ==> type_id_text(t1) == "i32"@,
        t1 is i64 ==> type_id_text(t1) == "i64"@,
        t1 is F64 ==> type_id_text(t1) == "f64"@,
        type_kind(t1) != type_kind(t2) ==> type_id_text(t1) != type_id_text(t2),
{
    reveal_strlit("void");
    reveal_strlit("i1");
    reveal_strlit("i8");
    reveal_strlit("i32");
    reveal_strlit("i64");
    reveal_strlit("f64");
    reveal_strlit("(ty:");
    reveal_strlit(")*");
    reveal_strlit("arrty:");
    reveal_strlit("functy:");
    reveal_strlit("structty:");
    let s1 = type_id_text(t1);
    let s2 = type_id_text(t2);
    assert(s1.len() >= 2 && s2.len() >= 2);
    if type_kind(t1) != type_kind(t2) {
        assert(s1[0] != s2[0] || s1[1] != s2[1]);
    }
}

/// The number a compound type carries, as its text shows it; none for a
/// basic type.
pub open spec fn type_number(t: Type) -> Option<usize> {
    match t {
        Type::Pointer(id) => Some(id.index),
        Type::Array(id) => Some(id.index),
        Type::Function(id) => Some(id.index),
        Type::Struct(id) => Some(id.index),
        _ => None,
    }
}

proof fn lemma_strip_affixes(p: Seq<char>, a: nat, b: nat, q: Seq<char>)
    requires
        p + decimal(a) + q == p + decimal(b) + q,
    ensures
        a == b,
{
    let s = p + decimal(a) + q;
    let t = p + decimal(b) + q;
    assert(s.len() == p.len() + decimal(a).len() + q.len());
    assert(t.len() == p.len() + decimal(b).len() + q.len());
    assert(s.len() == t.len());
    assert(decimal(a).len() == decimal(b).len());
    assert(s.subrange(p.len() as int, (p.len() + decimal(a).len()) as int) =~= decimal(a));
    assert(t.subrange(p.len() as int, (p.len() + decimal(b).len()) as int) =~= decimal(b));
    lemma_decimal_injective(a, b);
}

/// Two types print alike only when they are of one kind and, for compound
/// types, carry the same number: the text of a type names it within its
/// table.
pub proof fn lemma_type_text_injective(t1: Type, t2: Type)
    ensures
        type_id_text(t1) == type_id_text(t2) ==> type_kind(t1) == type_kind(t2) && type_number(t1) == type_number(t2),
{
    lemma_type_text_kinds(t1, t2);
    if type_id_text(t1) == type_id_text(t2) && type_kind(t1) == type_kind(t2) {
        let e = Seq::<char>::empty();
        match (t1, t2) {
            (Type::Pointer(a), Type::Pointer(b)) => {
                lemma_strip_affixes("(ty:"@, a.index as nat, b.index as nat, ")*"@);
            },
            (Type::Array(a), Type::Array(b)) => {
                assert("arrty:"@ + decimal(a.index as nat) + e =~= type_id_text(t1));
                assert("arrty:"@ + decimal(b.index as nat) + e =~= type_id_text(t2));
                lemma_strip_affixes("arrty:"@, a.index as nat, b.index as nat, e);
            },
            (Type::Function(a), Type::Function(b)) => {
                assert("functy:"@ + decimal(a.index as nat) + e =~= type_id_text(t1));
                assert("functy:"@ + decimal(b.index as nat) + e =~= type_id_text(t2));
                lemma_strip_affixes("functy:"@, a.index as nat, b.index as nat, e);
            },
            (Type::Struct(a), Type::Struct(b)) => {
                assert("structty:"@ + decimal(a.index as nat) + e =~= type_id_text(t1));
                assert("structty:"@ + decimal(b.index as nat) + e =~= type_id_text(t2));
                lemma_strip_affixes("structty:"@, a.index as nat, b.index as nat, e);
            },
            _ => {},
        }
    }
}

} // verus!

verus! {

/// The text of a type in a table: a basic type by its name; a pointer as
/// its element's text followed by `*`; an array as `[len x elem]`; a
/// function type as its result's text and its parameters' texts, each
/// followed by ` byval` when passed by value, separated by `, ` and in
/// parentheses; a struct as `struct {` and its fields' texts, separated by
/// `, `, and `}`.
pub proof fn lemma_type_text_forms(tys: &TypesBase, t: Type, fuel: nat)
    requires
        fuel > 0,
    ensures
        t is Void ==> tys.type_text(t, fuel) == "void"@,
        t is i1 ==> tys.type_text(t, fuel) == "i1"@,
        t is i8 ==> tys.type_text(t, fuel) == "i8"@,
        t is i32 ==> tys.type_text(t, fuel) == "i32"@,
        t is i64 ==> tys.type_text(t, fuel) == "i64"@,
        t is F64 ==> tys.type_text(t, fuel) == "f64"@,
        t matches Type::Pointer(id) ==> (tys.entry(id) matches CompoundTypeView::Pointer(e) ==> tys.type_text(t, fuel)
            == tys.type_text(e, (fuel - 1) as nat) + "*"@),
        t matches Type::Array(id) ==> (tys.entry(id) matches CompoundTypeView::Array(e, len) ==> tys.type_text(t, fuel)
            == "["@ + decimal(len as nat) + " x "@ + tys.type_text(e, (fuel - 1) as nat) + "]"@),
        t matches Type::Function(id) ==> (tys.entry(id) matches CompoundTypeView::Function(ret, ps, attrs) ==> tys.type_text(
            t,
            fuel,
        ) == tys.type_text(ret, (fuel - 1) as nat) + " ("@ + trim_seps(tys.items_text(ps, attrs, (fuel - 1) as nat, ps.len()))
            + ")"@),
        t matches Type::Struct(id) ==> (tys.entry(id) matches CompoundTypeView::Struct(fs, _, _, _) ==> tys.type_text(t, fuel)
            == "struct {"@ + trim_seps(tys.items_text(fs, Map::empty(), (fuel - 1) as nat, fs.len())) + "}"@),
{
}

/// The list of texts of types: each item's text, then ` byval` when the
/// item is passed by value, then `, `.
pub proof fn lemma_items_text_step(tys: &TypesBase, ts: Seq<Type>, attrs: Map<usize, ParamAttribute>, fuel: nat, k: nat)
    ensures
        tys.items_text(ts, attrs, fuel, 0) == Seq::<char>::empty(),
        tys.items_text(ts, attrs, fuel, k + 1) == tys.items_text(ts, attrs, fuel, k) + tys.type_text(ts[k as int], fuel) + (if attrs.contains_key(
            k as usize,
        ) && attrs[k as usize].byval {
            " byval"@
        } else {
            Seq::<char>::empty()
        }) + ", "@,
{
}

} // verus!
