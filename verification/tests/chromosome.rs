use lib_simulation::Chromosome;

fn chromosome() -> Chromosome<f32> {
    Chromosome {
        genes: vec![3.0, 1.0, 2.0],
    }
}

#[test]
fn chromosome_test() {
    // new
    let genes = Chromosome::new(vec![3.0, 1.0, 2.0]).genes;
    assert_eq!(genes.len(), 3);
    assert_eq!(genes[0], 3.0);
    assert_eq!(genes[1], 1.0);
    assert_eq!(genes[2], 2.0);

    // len
    assert_eq!(chromosome().len(), 3);

    // iter
    let chromosome = chromosome();
    let genes: Vec<_> = chromosome.iter().collect();
    assert_eq!(genes.len(), 3);
    assert_eq!(genes[0], &3.0);
    assert_eq!(genes[1], &1.0);
    assert_eq!(genes[2], &2.0);

    // index
    assert_eq!(chromosome[0], 3.0);
    assert_eq!(chromosome[1], 1.0);
    assert_eq!(chromosome[2], 2.0);
}

#[test]
fn chromosome_genes_are_those_given() {
    let chromosome = chromosome();
    assert_eq!(chromosome.genes(), &vec![3.0, 1.0, 2.0]);
}

#[test]
fn chromosome_index_mut_changes_one_gene() {
    let mut chromosome = chromosome();
    for i in 0..chromosome.len() {
        *chromosome.index_mut(i) *= 10.0;
    }
    let genes: Vec<_> = chromosome.iter().collect();
    assert_eq!(genes.len(), 3);
    assert_eq!(genes[0], &30.0);
    assert_eq!(genes[1], &10.0);
    assert_eq!(genes[2], &20.0);

    *chromosome.index_mut(1) = -4.5;
    assert_eq!(chromosome.genes, vec![30.0, -4.5, 20.0]);
}

#[test]
fn chromosome_of_no_genes_is_empty() {
    let chromosome: Chromosome<f32> = Chromosome::new(Vec::new());
    assert_eq!(chromosome.len(), 0);
    assert_eq!(chromosome.iter().count(), 0);
}
