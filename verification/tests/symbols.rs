use sajit::coffr::{
    resolve_symbol, resolve_symbols, relocparser, CoFFRError, CoffImage, CoffSection, CoffSymbol, Name, ObjArch,
    ObjKind, RawRelocation, RawSection, RawSymbol, RelocClass, RelocTarget, Resolved, SectKind, SectionIdx,
    SymSection,
};

fn sec(index: usize, name: &str) -> CoffSection {
    CoffSection {
        header: RawSection { index, align: 16, kind: SectKind::Other },
        name: name.as_bytes().to_vec(),
        data: vec![0; 16],
        size: 16,
        relocations: vec![],
    }
}

fn sym(index: usize, name: &[u8], section: SymSection, address: u64) -> CoffSymbol {
    CoffSymbol {
        info: RawSymbol { index, section, address, storage_class: Some(2), is_text: false },
        name: name.to_vec(),
    }
}

fn image() -> CoffImage {
    CoffImage {
        kind: ObjKind::Coff,
        arch: ObjArch::X86_64,
        sections: vec![sec(1, ".text"), sec(2, ".rdata"), sec(3, ".data")],
        symbols: vec![
            sym(0, b"f", SymSection::Section(1), 4),
            sym(1, b"ext", SymSection::Undefined, 0),
            sym(3, b"abs", SymSection::Absolute, 0x99),
            sym(4, b"d", SymSection::Section(3), 0),
            sym(5, &[0xFF, 0xFE], SymSection::Common, 0),
        ],
    }
}

fn resolver(n: Name) -> u64 {
    match n {
        Name::UTF8("ext") => 0x5000,
        _ => 1,
    }
}

#[test]
fn resolves_each_kind_of_symbol() {
    let img = image();
    assert!(matches!(
        resolve_symbol(&img, 0, &resolver),
        Ok(s) if matches!(s.resolved, Resolved::Section { idx: SectionIdx::Text(1), offset: 4 })
    ));
    assert!(matches!(resolve_symbol(&img, 1, &resolver), Ok(s) if matches!(s.resolved, Resolved::Absolute(0x5000))));
    assert!(matches!(resolve_symbol(&img, 2, &resolver), Ok(s) if matches!(s.resolved, Resolved::Absolute(0x99))));
    assert!(matches!(resolve_symbol(&img, 3, &resolver), Err(CoFFRError::RelocsOutsideTextData)));
    assert!(matches!(resolve_symbol(&img, 4, &resolver), Err(CoFFRError::InvalidObject)));
}

#[test]
fn names_are_text_when_they_can_be() {
    let img = image();
    let table = resolve_symbols(&img, &resolver);
    assert_eq!(table.len(), 5);
    assert!(matches!(&table[0], Ok(s) if s.name == Name::UTF8("f")));
    let raw = CoffSymbol { info: RawSymbol { index: 9, section: SymSection::Absolute, address: 1, storage_class: Some(3), is_text: false }, name: vec![0xFF, 0x41] };
    let mut img2 = image();
    img2.symbols.push(raw);
    let t2 = resolve_symbols(&img2, &resolver);
    assert!(matches!(&t2[5], Ok(s) if s.name == Name::Bytes(&[0xFF, 0x41])));
}

#[test]
fn reads_relocations_against_the_symbols() {
    let img = image();
    let table = resolve_symbols(&img, &resolver);
    let raws = vec![
        RawRelocation { offset: 0, target: RelocTarget::Symbol(1), typ: Some(4), class: RelocClass::Other },
        RawRelocation { offset: 4, target: RelocTarget::Section(2), typ: Some(1), class: RelocClass::Absolute },
        RawRelocation { offset: 8, target: RelocTarget::Section(3), typ: Some(1), class: RelocClass::Absolute },
        RawRelocation { offset: 8, target: RelocTarget::Symbol(2), typ: Some(1), class: RelocClass::Absolute },
        RawRelocation { offset: 8, target: RelocTarget::Absolute, typ: None, class: RelocClass::Absolute },
    ];
    let relocs = relocparser(&img, &raws, &table);
    assert_eq!(relocs.len(), 5);
    assert!(matches!(&relocs[0], Ok(r) if r.typ == 4 && matches!(r.symbol, Resolved::Absolute(0x5000))));
    assert!(matches!(&relocs[1], Ok(r) if r.position_offset == 4 && matches!(r.symbol, Resolved::Section { idx: SectionIdx::RData(2), offset: 0 })));
    assert!(matches!(relocs[2], Err(CoFFRError::RelocsOutsideTextData)));
    assert!(matches!(relocs[3], Err(CoFFRError::InvalidObject)));
    assert!(matches!(relocs[4], Err(CoFFRError::InvalidObject)));
}
