use slate::search::{occurrences_label, replacement_label};

#[test]
fn occurrence_labels() {
    assert_eq!(occurrences_label(-1), "Recherche...");
    assert_eq!(occurrences_label(0), "Aucun résultat");
    assert_eq!(occurrences_label(1), "1 trouvés");
    assert_eq!(occurrences_label(42), "42 trouvés");
    assert_eq!(occurrences_label(i32::MIN), "-2147483648 trouvés");
    assert_eq!(replacement_label(true), "Remplacements terminés");
    assert_eq!(replacement_label(false), "Erreur de remplacement");
}
