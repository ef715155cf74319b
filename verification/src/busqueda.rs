//! Búsqueda de un libro por ISBN.
use vstd::prelude::*;
use crate::modelo::{Libro, Nodo, contenido, ordenado};

verus! {

/// El libro al que lleva el camino de búsqueda de `isbn` desde la raíz de `t`: en cada
/// nodo se para si el ISBN coincide y si no baja a la izquierda (ISBN menor) o a la
/// derecha (ISBN mayor); `None` si el camino acaba en un subárbol vacío.
pub open spec fn por_camino(t: Option<Box<Nodo>>, isbn: u32) -> Option<Libro>
    decreases t,
{
    match t {
        None => None,
        Some(n) => if isbn == n.libro.isbn {
            Some(n.libro)
        } else if isbn < n.libro.isbn {
            por_camino(n.izquierdo, isbn)
        } else {
            por_camino(n.derecho, isbn)
        },
    }
}

/// En un árbol ordenado el camino de búsqueda lleva al libro que el contenido asocia al
/// ISBN, y a ninguno si el ISBN no está.
pub proof fn lema_por_camino_ordenado(t: Option<Box<Nodo>>, isbn: u32)
    requires
        ordenado(t),
    ensures
        por_camino(t, isbn) == if contenido(t).contains_key(isbn) {
            Some(contenido(t)[isbn])
        } else {
            None::<Libro>
        },
    decreases t,
{
    match t {
        None => {},
        Some(n) => {
            if isbn < n.libro.isbn {
                lema_por_camino_ordenado(n.izquierdo, isbn);
                assert(!contenido(n.derecho).contains_key(isbn));
            } else if isbn > n.libro.isbn {
                lema_por_camino_ordenado(n.derecho, isbn);
                assert(!contenido(n.izquierdo).contains_key(isbn));
            }
        },
    }
}

/// Busca el libro con ISBN `isbn` siguiendo el camino de búsqueda desde la raíz. Devuelve
/// una referencia al libro guardado, o `None`. En un árbol ordenado es el libro que el
/// contenido asocia a `isbn`, y `None` solo si el ISBN no está.
pub fn buscar<'a>(nodo: &'a Option<Box<Nodo>>, isbn: u32) -> (r: Option<&'a Libro>)
    ensures
        match r {
            Some(libro) => por_camino(*nodo, isbn) == Some(*libro) && libro.isbn == isbn,
            None => por_camino(*nodo, isbn) is None,
        },
        ordenado(*nodo) ==> match r {
            Some(libro) => {
                &&& contenido(*nodo).contains_key(isbn)
                &&& *libro == contenido(*nodo)[isbn]
            },
            None => !contenido(*nodo).contains_key(isbn),
        },
    decreases *nodo,
{
    match nodo.as_ref() {
        None => None,
        Some(n) => {
            if isbn == n.libro.isbn {
                Some(&n.libro)
            } else if isbn < n.libro.isbn {
                proof {
                    if ordenado(*nodo) {
                        assert(!contenido(n.derecho).contains_key(isbn));
                    }
                }
                buscar(&n.izquierdo, isbn)
            } else {
                proof {
                    if ordenado(*nodo) {
                        assert(!contenido(n.izquierdo).contains_key(isbn));
                    }
                }
                buscar(&n.derecho, isbn)
            }
        },
    }
}

} // verus!
