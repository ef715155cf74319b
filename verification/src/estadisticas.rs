//! Estadísticas del catálogo: número de libros, altura y libro de ISBN más alto.
use vstd::prelude::*;
use crate::modelo::{Libro, Nodo, altura_real, mayor, tamano};

verus! {

/// Acumulador de las estadísticas de un recorrido del árbol.
pub struct Estadisticas {
    pub total_nodos: u32,
    pub altura_total: i32,
    pub isbn_mas_alto: Option<u32>,
    pub titulo_isbn_mas_alto: Option<String>,
}

/// El libro de ISBN más alto de un árbol no vacío; entre varios con ese ISBN, el primero
/// en orden (subárbol izquierdo, raíz, subárbol derecho).
pub open spec fn libro_mayor(n: Nodo) -> Libro
    decreases n,
{
    let hasta_raiz = match n.izquierdo {
        Some(l) => {
            let b = libro_mayor(*l);
            if n.libro.isbn > b.isbn { n.libro } else { b }
        },
        None => n.libro,
    };
    match n.derecho {
        Some(d) => {
            let b = libro_mayor(*d);
            if b.isbn > hasta_raiz.isbn { b } else { hasta_raiz }
        },
        None => hasta_raiz,
    }
}

/// El par (ISBN más alto, título) que queda tras ver `libro` con el par `(isbn, titulo)`
/// acumulado: el libro lo reemplaza si no había ninguno o si su ISBN es mayor.
pub open spec fn con_candidato(
    isbn: Option<u32>,
    titulo: Option<String>,
    libro: Libro,
) -> (Option<u32>, Option<String>) {
    match isbn {
        Some(actual) if libro.isbn <= actual => (isbn, titulo),
        _ => (Some(libro.isbn), Some(libro.titulo)),
    }
}

/// Recorre el árbol en orden (subárbol izquierdo, raíz, subárbol derecho) y acumula en `stats`, tomando `profundidad_actual` como la
/// profundidad de la raíz: suma el número de nodos, lleva la mayor profundidad alcanzada
/// y el ISBN más alto con su título.
pub fn calcular_estadisticas(
    nodo: &Option<Box<Nodo>>,
    stats: &mut Estadisticas,
    profundidad_actual: i32,
)
    requires
        old(stats).total_nodos + tamano(*nodo) <= u32::MAX,
        profundidad_actual + altura_real(*nodo) <= i32::MAX,
    ensures
        final(stats).total_nodos == old(stats).total_nodos + tamano(*nodo),
        final(stats).altura_total == match *nodo {
            None => old(stats).altura_total as int,
            Some(_) => mayor(
                old(stats).altura_total as int,
                profundidad_actual + altura_real(*nodo) - 1,
            ),
        },
        (final(stats).isbn_mas_alto, final(stats).titulo_isbn_mas_alto) == match *nodo {
            None => (old(stats).isbn_mas_alto, old(stats).titulo_isbn_mas_alto),
            Some(n) => con_candidato(
                old(stats).isbn_mas_alto,
                old(stats).titulo_isbn_mas_alto,
                libro_mayor(*n),
            ),
        },
    decreases *nodo,
{
    if let Some(n) = nodo.as_ref() {
        calcular_estadisticas(&n.izquierdo, stats, profundidad_actual + 1);

        stats.total_nodos += 1;

        // La altura total es la mayor profundidad alcanzada
        if profundidad_actual > stats.altura_total {
            stats.altura_total = profundidad_actual;
        }

        match stats.isbn_mas_alto {
            None => {
                stats.isbn_mas_alto = Some(n.libro.isbn);
                stats.titulo_isbn_mas_alto = Some(n.libro.titulo.clone());
            },
            Some(actual) if n.libro.isbn > actual => {
                stats.isbn_mas_alto = Some(n.libro.isbn);
                stats.titulo_isbn_mas_alto = Some(n.libro.titulo.clone());
            },
            _ => {},
        }

        calcular_estadisticas(&n.derecho, stats, profundidad_actual + 1);
    }
}

} // verus!
